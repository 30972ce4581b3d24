//! Comment list building and text extraction for selections.
use vstd::prelude::*;
use crate::comments::{Comment, CommentListEntry, CommentStore, comments_of_file, sorted_files};
use crate::paths::{display_path, display_below};
use crate::text::{first_line, first_line_of, chars_of, push_char, push_str};
use crate::file_viewer::content::ViewerContent;
use crate::comments::{lines_view, comment_added};
use crate::app::InputMode;
use crate::components::{Key, KeyCode};
use crate::file_viewer::{FileViewer, file_lines, file_line_of_row, moved_down, moved_up, col_clamped, comment_ending_at};
use crate::comments::{context_found, first_on_range, first_covering, off_range};

verus! {

/// The comment-list text of a comment: its first line (empty when it has none).
pub open spec fn list_text(c: Comment) -> Seq<char> {
    match first_line_of(c.text@) {
        Some(l) => l,
        None => Seq::empty(),
    }
}

/// The view of a comment-list entry: `(is_header, file, display name or text, start, end)`.
pub open spec fn entry_view(e: CommentListEntry) -> (bool, Seq<char>, Seq<char>, usize, usize) {
    match e {
        CommentListEntry::Header { file, display_name } => (true, file@, display_name@, 0, 0),
        CommentListEntry::Comment { file, start_line, end_line, text } => (false, file@, text@, start_line, end_line),
    }
}

/// The list entries of a file's comments.
pub open spec fn comment_entries(s: Seq<Comment>) -> Seq<(bool, Seq<char>, Seq<char>, usize, usize)>
    decreases s.len(),
{
    if s.len() == 0 {
        Seq::empty()
    } else {
        comment_entries(s.drop_last()).push((false, s.last().file@, list_text(s.last()), s.last().start_line, s.last().end_line))
    }
}

/// The comment list: for each commented file in path order, a header with its
/// path below `root`, then its comments by start line.
pub open spec fn comment_list(cs: Seq<Comment>, fs: Seq<Seq<char>>, root: Seq<char>) -> Seq<(bool, Seq<char>, Seq<char>, usize, usize)>
    decreases fs.len(),
{
    if fs.len() == 0 {
        Seq::empty()
    } else {
        comment_list(cs, fs.drop_last(), root)
            + seq![(true, fs.last(), display_below(fs.last(), root), 0usize, 0usize)]
            + comment_entries(comments_of_file(cs, fs.last()))
    }
}

proof fn lemma_comment_entries_at(s: Seq<Comment>)
    ensures
        comment_entries(s).len() == s.len(),
        forall|k: int| 0 <= k < s.len() ==> #[trigger] comment_entries(s)[k]
            == (false, s[k].file@, list_text(s[k]), s[k].start_line, s[k].end_line),
    decreases s.len(),
{
    if s.len() > 0 {
        lemma_comment_entries_at(s.drop_last());
        assert forall|k: int| 0 <= k < s.len() implies #[trigger] comment_entries(s)[k]
            == (false, s[k].file@, list_text(s[k]), s[k].start_line, s[k].end_line) by {
            if k < s.len() - 1 {
                assert(s.drop_last()[k] == s[k]);
            }
        }
    }
}

/// Every comment row of the comment list stands for a comment of the store:
/// it carries that comment's file, start and end line, and the first line of
/// its text, so jumping to or deleting the row's range reaches the comment.
pub proof fn law_comment_list_rows_are_comments(cs: Seq<Comment>, fs: Seq<Seq<char>>, root: Seq<char>)
    ensures
        forall|k: int| 0 <= k < comment_list(cs, fs, root).len() && !(#[trigger] comment_list(cs, fs, root)[k]).0
            ==> exists|m: int| 0 <= m < cs.len()
                && cs[m].file@ == comment_list(cs, fs, root)[k].1
                && list_text(cs[m]) == comment_list(cs, fs, root)[k].2
                && cs[m].start_line == comment_list(cs, fs, root)[k].3
                && cs[m].end_line == comment_list(cs, fs, root)[k].4,
    decreases fs.len(),
{
    if fs.len() > 0 {
        let d = fs.drop_last();
        law_comment_list_rows_are_comments(cs, d, root);
        let prev = comment_list(cs, d, root);
        let f = fs.last();
        let p = crate::comments::in_file(f);
        let sorted = comments_of_file(cs, f);
        lemma_comment_entries_at(sorted);
        crate::comments::lemma_sort_by_start_members(cs.filter(p));
        let head = prev + seq![(true, f, display_below(f, root), 0usize, 0usize)];
        let all = comment_list(cs, fs, root);
        assert(all == head + comment_entries(sorted));
        assert forall|k: int| 0 <= k < all.len() && !(#[trigger] all[k]).0
            implies exists|m: int| 0 <= m < cs.len()
                && cs[m].file@ == all[k].1 && list_text(cs[m]) == all[k].2
                && cs[m].start_line == all[k].3 && cs[m].end_line == all[k].4 by {
            if k < prev.len() {
                assert(all[k] == prev[k]);
            } else if k > prev.len() {
                let q = k - prev.len() - 1;
                assert(all[k] == comment_entries(sorted)[q]);
                let x = sorted[q];
                let m1 = choose|m1: int| 0 <= m1 < cs.filter(p).len() && cs.filter(p)[m1] == sorted[q];
                assert(cs.filter(p).contains(x));
                cs.lemma_filter_contains_rev(p, x);
                let m = choose|m: int| 0 <= m < cs.len() && cs[m] == x;
                assert(cs[m] == x);
            }
        }
    }
}

/// No comment of a listed file is left out of the comment list: each has a
/// row with its file, first text line, start and end line.
pub proof fn law_comment_list_has_every_comment(cs: Seq<Comment>, fs: Seq<Seq<char>>, root: Seq<char>, m: int)
    requires
        0 <= m < cs.len(),
        fs.contains(cs[m].file@),
    ensures
        exists|k: int| 0 <= k < comment_list(cs, fs, root).len()
            && #[trigger] comment_list(cs, fs, root)[k] == (false, cs[m].file@, list_text(cs[m]), cs[m].start_line, cs[m].end_line),
    decreases fs.len(),
{
    let d = fs.drop_last();
    let f = fs.last();
    let prev = comment_list(cs, d, root);
    let p = crate::comments::in_file(f);
    let sorted = comments_of_file(cs, f);
    let all = comment_list(cs, fs, root);
    let want = (false, cs[m].file@, list_text(cs[m]), cs[m].start_line, cs[m].end_line);
    let head = prev + seq![(true, f, display_below(f, root), 0usize, 0usize)];
    assert(all == head + comment_entries(sorted));
    if f == cs[m].file@ {
        lemma_comment_entries_at(sorted);
        cs.lemma_filter_contains(p, m);
        let q = choose|q: int| 0 <= q < cs.filter(p).len() && cs.filter(p)[q] == cs[m];
        crate::comments::lemma_sort_by_start_complete(cs.filter(p));
        let j = choose|j: int| 0 <= j < cs.filter(p).len() && #[trigger] sorted[j] == cs.filter(p)[q];
        assert(all[head.len() + j] == comment_entries(sorted)[j]);
        assert(all[head.len() + j] == want);
    } else {
        let i = choose|i: int| 0 <= i < fs.len() && fs[i] == cs[m].file@;
        assert(d[i] == fs[i]);
        assert(d.contains(cs[m].file@));
        law_comment_list_has_every_comment(cs, d, root, m);
        let k = choose|k: int| 0 <= k < prev.len() && #[trigger] prev[k] == want;
        assert(all[k] == prev[k]);
    }
}

/// Build a flat list of comment entries grouped by file for the comment list view.
pub fn build_comment_list_entries(store: &CommentStore, root: &str) -> (r: Vec<CommentListEntry>)
    ensures
        r@.map_values(|e: CommentListEntry| entry_view(e)) == comment_list(store@, sorted_files(store@), root@),
{
    let files = store.files_with_comments();
    let ghost fs = crate::comments::lines_view(files@);
    let mut entries: Vec<CommentListEntry> = Vec::new();
    let mut k: usize = 0;
    while k < files.len()
        invariant
            k <= files@.len(),
            fs == crate::comments::lines_view(files@),
            fs == sorted_files(store@),
            entries@.map_values(|e: CommentListEntry| entry_view(e)) == comment_list(store@, fs.take(k as int), root@),
        decreases files.len() - k,
    {
        let ghost before = entries@.map_values(|e: CommentListEntry| entry_view(e));
        let display_name = display_path(files[k].as_str(), root);
        entries.push(CommentListEntry::Header { file: files[k].clone(), display_name });
        let ghost head = entries@.map_values(|e: CommentListEntry| entry_view(e));
        assert(head =~= before + seq![(true, fs[k as int], display_below(fs[k as int], root@), 0usize, 0usize)]);
        let cs = store.for_file(files[k].as_str());
        let ghost sorted = cs@.map_values(|x: &Comment| *x);
        let mut j: usize = 0;
        while j < cs.len()
            invariant
                j <= cs@.len(),
                sorted == cs@.map_values(|x: &Comment| *x),
                entries@.map_values(|e: CommentListEntry| entry_view(e)) == head + comment_entries(sorted.take(j as int)),
            decreases cs.len() - j,
        {
            let c = cs[j];
            let ghost prev = entries@;
            let text = match first_line(c.text.as_str()) {
                Some(l) => l,
                None => {
                    let e = String::new();
                    assert(e@ =~= Seq::<char>::empty());
                    e
                },
            };
            entries.push(CommentListEntry::Comment { file: c.file.clone(), start_line: c.start_line, end_line: c.end_line, text });
            proof {
                let t = sorted.take(j as int + 1);
                assert(t.drop_last() =~= sorted.take(j as int));
                assert(t.last() == *c);
                assert(text@ == list_text(*c));
                assert(entries@ == prev.push(entries@.last()));
                assert(entry_view(entries@.last()) == (false, c.file@, list_text(*c), c.start_line, c.end_line));
                assert(comment_entries(t) == comment_entries(sorted.take(j as int)).push((false, c.file@, list_text(*c), c.start_line, c.end_line)));
                assert(entries@.map_values(|e: CommentListEntry| entry_view(e)) =~= prev.map_values(|e: CommentListEntry| entry_view(e)).push(entry_view(entries@.last())));
                assert(entries@.map_values(|e: CommentListEntry| entry_view(e)) =~= head + comment_entries(t));
            }
            j = j + 1;
        }
        proof {
            assert(sorted.take(cs@.len() as int) =~= sorted);
            let t = fs.take(k as int + 1);
            assert(t.drop_last() =~= fs.take(k as int));
            assert(entries@.map_values(|e: CommentListEntry| entry_view(e)) =~= comment_list(store@, t, root@));
        }
        k = k + 1;
    }
    assert(fs.take(files@.len() as int) =~= fs);
    entries
}

/// Characters `a..b` of `s`, clipped to its length (empty when `b <= a`).
pub open spec fn clip(s: Seq<char>, a: int, b: int) -> Seq<char> {
    if a < b {
        s.subrange(if a < s.len() { a } else { s.len() as int }, if b < s.len() { b } else { s.len() as int })
    } else {
        Seq::empty()
    }
}

/// Each line followed by a newline.
pub open spec fn lines_with_newlines(ls: Seq<Seq<char>>) -> Seq<char>
    decreases ls.len(),
{
    if ls.len() == 0 { Seq::empty() } else { lines_with_newlines(ls.drop_last()) + ls.last() + seq!['\n'] }
}

/// The text of a character selection over `lines`: from column `sc` of line
/// `sl` to column `ec` (exclusive) of line `el`, the end clamped to the last
/// line; empty when there are no lines or `sl` is past `el` or the lines.
pub open spec fn char_range_text(lines: Seq<Seq<char>>, sl: int, sc: int, el: int, ec: int) -> Seq<char> {
    if lines.len() == 0 || sl > el || sl >= lines.len() {
        Seq::empty()
    } else {
        let e = if el < lines.len() - 1 { el } else { lines.len() - 1 };
        if sl == e {
            clip(lines[sl], sc, ec)
        } else {
            clip(lines[sl], sc, lines[sl].len() as int) + seq!['\n']
                + lines_with_newlines(lines.subrange(sl + 1, e))
                + clip(lines[e], 0, ec)
        }
    }
}

/// The characters `a..b` of `cs` (clipped) as a string.
fn clipped_string(cs: &Vec<char>, a: usize, b: usize) -> (r: String)
    ensures
        r@ == clip(cs@, a as int, b as int),
{
    let mut r = String::new();
    assert(r@ =~= Seq::<char>::empty());
    if a >= b {
        return r;
    }
    let lo = if a < cs.len() { a } else { cs.len() };
    let hi = if b < cs.len() { b } else { cs.len() };
    let mut i = lo;
    while i < hi
        invariant
            lo <= i <= hi,
            hi <= cs@.len(),
            r@ == cs@.subrange(lo as int, i as int),
        decreases hi - i,
    {
        push_char(&mut r, cs[i]);
        i = i + 1;
        assert(r@ =~= cs@.subrange(lo as int, i as int));
    }
    r
}

/// Extract the text of a character range across lines. Lines are 0-indexed;
/// `start_col` and `end_col` are 0-indexed character offsets, `end_col`
/// exclusive.
pub fn extract_char_range(lines: &[String], start_line: usize, start_col: usize, end_line: usize, end_col: usize) -> (r: String)
    ensures
        r@ == char_range_text(lines_view(lines@), start_line as int, start_col as int, end_line as int, end_col as int),
{
    let ghost lv = lines_view(lines@);
    if lines.len() == 0 || start_line > end_line || start_line >= lines.len() {
        let r = String::new();
        assert(r@ =~= Seq::<char>::empty());
        return r;
    }
    let end_line = if end_line < lines.len() - 1 { end_line } else { lines.len() - 1 };
    assert(lv[start_line as int] == lines@[start_line as int]@);
    assert(lv[end_line as int] == lines@[end_line as int]@);
    if start_line == end_line {
        let cs = chars_of(lines[start_line].as_str());
        clipped_string(&cs, start_col, end_col)
    } else {
        let first = chars_of(lines[start_line].as_str());
        let mut result = clipped_string(&first, start_col, first.len());
        push_char(&mut result, '\n');
        let ghost head = result@;
        let mut k = start_line + 1;
        while k < end_line
            invariant
                start_line + 1 <= k <= end_line,
                end_line < lines@.len(),
                lv == lines_view(lines@),
                result@ == head + lines_with_newlines(lv.subrange(start_line + 1, k as int)),
            decreases end_line - k,
        {
            proof {
                let t = lv.subrange(start_line + 1, k as int + 1);
                assert(t.drop_last() =~= lv.subrange(start_line + 1, k as int));
                assert(t.last() == lines@[k as int]@);
            }
            push_str(&mut result, lines[k].as_str());
            push_char(&mut result, '\n');
            k = k + 1;
        }
        let last = chars_of(lines[end_line].as_str());
        let tail = clipped_string(&last, 0, end_col);
        push_str(&mut result, tail.as_str());
        result
    }
}

/// The code a comment on lines `start_line..=end_line` (1-indexed, clamped
/// to the file) of `file` keeps as context: those lines of the viewed content
/// when it is that file, nothing otherwise.
pub open spec fn code_context_for(content: ViewerContent, file: Seq<char>, start_line: usize, end_line: usize) -> Seq<Seq<char>> {
    match content {
        ViewerContent::File { path, lines, .. } => if path@ == file {
            let s = if start_line >= 1 { start_line - 1 } else { 0 };
            lines_view(lines@).subrange(
                if s < lines@.len() { s } else { lines@.len() as int },
                if end_line < lines@.len() { end_line as int } else { lines@.len() as int })
        } else {
            Seq::empty()
        },
        _ => Seq::empty(),
    }
}

/// The lines `start_line..=end_line` (1-indexed, clamped to the file) of
/// the viewed content when it is the file `file`; nothing otherwise.
pub fn extract_code_context(content: &ViewerContent, file: &str, start_line: usize, end_line: usize) -> (r: Vec<String>)
    requires
        match content {
            ViewerContent::File { path, lines, .. } => path@ == file@ ==> {
                let s = if start_line >= 1 { start_line - 1 } else { 0 };
                (if s < lines@.len() { s } else { lines@.len() as int }) <= (if end_line < lines@.len() { end_line as int } else { lines@.len() as int })
            },
            _ => true,
        },
    ensures
        lines_view(r@) == code_context_for(*content, file@, start_line, end_line),
{
    if let ViewerContent::File { path, lines, .. } = content {
        if crate::text::str_eq(path.as_str(), file) {
            let s = if start_line >= 1 { start_line - 1 } else { 0 };
            let start = if s < lines.len() { s } else { lines.len() };
            let end = if end_line < lines.len() { end_line } else { lines.len() };
            let mut r: Vec<String> = Vec::new();
            let mut i = start;
            while i < end
                invariant
                    start <= i <= end,
                    end <= lines@.len(),
                    lines_view(r@) == lines_view(lines@).subrange(start as int, i as int),
                decreases end - i,
            {
                let ghost before = lines_view(r@);
                r.push(lines[i].clone());
                assert(lines_view(r@) =~= before.push(lines@[i as int]@));
                i = i + 1;
                assert(lines_view(r@) =~= lines_view(lines@).subrange(start as int, i as int));
            }
            return r;
        }
    }
    Vec::new()
}

/// A copy of a list of lines.
pub fn copy_lines(v: &Vec<String>) -> (r: Vec<String>)
    ensures
        r@ == v@,
{
    let mut r: Vec<String> = Vec::new();
    let mut i: usize = 0;
    while i < v.len()
        invariant
            i <= v@.len(),
            r@ == v@.take(i as int),
        decreases v.len() - i,
    {
        r.push(v[i].clone());
        i = i + 1;
        assert(r@ =~= v@.take(i as int));
    }
    assert(v@.take(v@.len() as int) =~= v@);
    r
}

/// The two comments hold the same file, range, text and code context.
pub open spec fn same_comment(a: Comment, b: Comment) -> bool {
    a.file == b.file && a.start_line == b.start_line && a.end_line == b.end_line && a.text == b.text
        && a.code_context@ == b.code_context@
}

/// A copy of a comment.
pub fn copy_comment(c: &Comment) -> (r: Comment)
    ensures
        same_comment(r, *c),
{
    Comment {
        file: c.file.clone(),
        start_line: c.start_line,
        end_line: c.end_line,
        text: c.text.clone(),
        code_context: copy_lines(&c.code_context),
    }
}

/// A copy of an input mode.
pub fn copy_mode(m: &InputMode) -> (r: InputMode)
    ensures
        r == *m,
    decreases m,
{
    match m {
        InputMode::Normal => InputMode::Normal,
        InputMode::CommentInput { file, start_line, end_line, text, previous } => {
            let previous = match previous {
                Some(p) => Some(Box::new(copy_mode(&**p))),
                None => None,
            };
            InputMode::CommentInput { file: file.clone(), start_line: *start_line, end_line: *end_line, text: text.clone(), previous }
        },
        InputMode::LineSelect { file, anchor } => InputMode::LineSelect { file: file.clone(), anchor: *anchor },
        InputMode::CharSelect { file, anchor_line, anchor_col } =>
            InputMode::CharSelect { file: file.clone(), anchor_line: *anchor_line, anchor_col: *anchor_col },
    }
}

/// A comment is stale when its code context is no longer found in `lines`.
pub open spec fn stale_in(c: Comment, lines: Seq<Seq<char>>) -> bool {
    c.code_context@.len() > 0 && !context_found(lines_view(c.code_context@), lines)
}

/// The comments of the viewed file (by start line) with their staleness.
pub open spec fn comments_with_staleness(cs: Seq<Comment>, lines: Seq<Seq<char>>) -> Seq<(Comment, bool)> {
    cs.map_values(|c: Comment| (c, stale_in(c, lines)))
}

/// The path of the file a viewer shows, if any.
pub open spec fn viewed_file(v: FileViewer) -> Option<Seq<char>> {
    match v.content {
        ViewerContent::File { path, .. } => Some(path@),
        _ => None,
    }
}

/// The comments of the file the viewer shows, each with whether it is stale.
pub fn viewer_comments(store: &CommentStore, viewer: &FileViewer) -> (r: Vec<(Comment, bool)>)
    ensures
        ({
            let expected = match viewed_file(*viewer) {
                Some(f) => comments_with_staleness(comments_of_file(store@, f), lines_view(file_lines(viewer.content))),
                None => Seq::empty(),
            };
            &&& r@.len() == expected.len()
            &&& forall|i: int| 0 <= i < r@.len() ==> same_comment((#[trigger] r@[i]).0, expected[i].0) && r@[i].1 == expected[i].1
        }),
{
    let mut r: Vec<(Comment, bool)> = Vec::new();
    match viewer.current_file() {
        None => {
            assert(r@ =~= Seq::<(Comment, bool)>::empty());
        },
        Some(file) => {
            let cs = store.for_file(file);
            let lines = viewer.current_lines();
            let ghost sorted = cs@.map_values(|x: &Comment| *x);
            let mut i: usize = 0;
            while i < cs.len()
                invariant
                    i <= cs@.len(),
                    sorted == cs@.map_values(|x: &Comment| *x),
                    lines@ == file_lines(viewer.content),
                    r@.len() == i,
                    forall|k: int| 0 <= k < i ==> same_comment((#[trigger] r@[k]).0, sorted[k]) && r@[k].1 == stale_in(sorted[k], lines_view(lines@)),
                decreases cs.len() - i,
            {
                let c = cs[i];
                let stale = c.is_stale(lines);
                r.push((copy_comment(c), stale));
                i = i + 1;
            }
        },
    }
    r
}

/// The text of the first comment on the range, empty when there is none.
pub open spec fn existing_text(cs: Seq<Comment>, f: Seq<char>, start: usize, end: usize) -> Seq<char> {
    if exists|i: int| first_on_range(cs, f, start, end, i) {
        cs[choose|i: int| first_on_range(cs, f, start, end, i)].text@
    } else {
        Seq::empty()
    }
}

proof fn lemma_first_on_range_unique(cs: Seq<Comment>, f: Seq<char>, start: usize, end: usize, i: int, j: int)
    requires
        first_on_range(cs, f, start, end, i),
        first_on_range(cs, f, start, end, j),
    ensures
        i == j,
{
    if i < j {
        assert(!crate::comments::on_range(cs[i], f, start, end));
    } else if j < i {
        assert(!crate::comments::on_range(cs[j], f, start, end));
    }
}

/// The text of the comment on exactly the given range, empty when none.
fn text_on_range(store: &CommentStore, file: &str, start: usize, end: usize) -> (r: String)
    ensures
        r@ == existing_text(store@, file@, start, end),
{
    match store.find_exact(file, start, end) {
        Some(c) => {
            proof {
                let i = choose|i: int| first_on_range(store@, file@, start, end, i) && store@[i] == *c;
                let k = choose|k: int| first_on_range(store@, file@, start, end, k);
                lemma_first_on_range_unique(store@, file@, start, end, i, k);
            }
            c.text.clone()
        },
        None => {
            let e = String::new();
            proof {
                assert(e@ =~= Seq::<char>::empty());
                if exists|i: int| first_on_range(store@, file@, start, end, i) {
                    let i = choose|i: int| first_on_range(store@, file@, start, end, i);
                    assert(crate::comments::on_range(store@[i], file@, start, end));
                }
            }
            e
        },
    }
}

/// The comment editor `start_comment` opens: on a comment row, editing that
/// comment's range with its text; on a code line, a new comment on that line;
/// nothing without a file or on a removed diff row.
pub open spec fn comment_to_start(v: FileViewer, cs: Seq<Comment>) -> Option<(Seq<char>, usize, usize, Seq<char>)> {
    match viewed_file(v) {
        None => None,
        Some(f) => match v.cursor_on_comment {
            Some((a, b)) => Some((f, a, b, existing_text(cs, f, a, b))),
            None => match file_line_of_row(v, v.cursor_line as int) {
                Some(l) => Some((f, l, l, Seq::empty())),
                None => None,
            },
        },
    }
}

/// The comment-input mode for a start, or `None`.
pub open spec fn input_matches(m: InputMode, f: Seq<char>, start: usize, end: usize, text: Seq<char>) -> bool {
    match m {
        InputMode::CommentInput { file, start_line, end_line, text: t, previous } =>
            file@ == f && start_line == start && end_line == end && t@ == text && previous is None,
        _ => false,
    }
}

/// The input mode for starting a comment at the viewer's cursor (see
/// [`comment_to_start`]); `None` when no comment can start there.
pub fn start_comment(viewer: &FileViewer, store: &CommentStore) -> (r: Option<InputMode>)
    requires
        !viewer.diff.diff_mode ==> viewer.cursor_line < usize::MAX,
    ensures
        match comment_to_start(*viewer, store@) {
            None => r is None,
            Some((f, a, b, t)) => r is Some && input_matches(r->0, f, a, b, t),
        },
{
    let file = match viewer.current_file() {
        Some(f) => f,
        None => { return None; },
    };
    match viewer.cursor_on_comment {
        Some((start, end)) => {
            let text = text_on_range(store, file, start, end);
            Some(InputMode::CommentInput { file: crate::text::to_owned_string(file), start_line: start, end_line: end, text, previous: None })
        },
        None => match viewer.cursor_file_line() {
            Some(line) => {
                let text = String::new();
                assert(text@ =~= Seq::<char>::empty());
                Some(InputMode::CommentInput { file: crate::text::to_owned_string(file), start_line: line, end_line: line, text, previous: None })
            },
            None => None,
        },
    }
}

/// `av` and `fs` are the viewer and the comments after deleting the comment
/// under the cursor of `bv` from `bs`.
pub open spec fn deleted_at_cursor(bv: FileViewer, bs: Seq<Comment>, av: FileViewer, fs: Seq<Comment>) -> bool {
    &&& (viewed_file(bv) is None ==> fs == bs && av == bv)
    &&& (viewed_file(bv) is Some && bv.cursor_on_comment is Some ==> {
                let f = viewed_file(bv)->0;
                let (a, b) = bv.cursor_on_comment->0;
                &&& fs == bs.filter(off_range(f, a, b))
                &&& av == (FileViewer { cursor_on_comment: None, ..bv })
            })
    &&& (viewed_file(bv) is Some && bv.cursor_on_comment is None ==> {
                let f = viewed_file(bv)->0;
                &&& av == bv
                &&& match file_line_of_row(bv, bv.cursor_line as int) {
                    Some(l) => if exists|i: int| first_covering(bs, f, l, i) {
                        let i = choose|i: int| first_covering(bs, f, l, i);
                        fs == bs.filter(off_range(f, bs[i].start_line, bs[i].end_line))
                    } else {
                        fs == bs
                    },
                    None => fs == bs,
                }
            })
}

/// Delete the comment under the viewer's cursor: the comment row's range,
/// or the first comment covering the cursor's file line.
#[verifier::spinoff_prover]
pub fn delete_comment_at_cursor(viewer: &mut FileViewer, store: &mut CommentStore)
    requires
        !old(viewer).diff.diff_mode ==> old(viewer).cursor_line < usize::MAX,
    ensures
        deleted_at_cursor(*old(viewer), old(store)@, *final(viewer), final(store)@),

{
    let coc = viewer.cursor_on_comment;
    let file = match viewer.current_file() {
        Some(f) => crate::text::to_owned_string(f),
        None => { return; },
    };
    if let Some((start, end)) = coc {
        store.delete(file.as_str(), start, end);
        viewer.cursor_on_comment = None;
        return;
    }
    let found = match viewer.cursor_file_line() {
        Some(line) => match store.find_at_line(file.as_str(), line) {
            Some(c) => {
                proof {
                    let i = choose|i: int| first_covering(store@, file@, line, i) && store@[i] == *c;
                    let k = choose|k: int| first_covering(old(store)@, viewed_file(*old(viewer))->0, line, k);
                    assert(first_covering(old(store)@, viewed_file(*old(viewer))->0, line, i));
                    if i < k {
                        assert(!crate::comments::covers(store@[i], file@, line));
                    } else if k < i {
                        assert(!crate::comments::covers(store@[k], file@, line));
                    }
                    assert(c.start_line == old(store)@[k].start_line && c.end_line == old(store)@[k].end_line);
                }
                Some((c.start_line, c.end_line))
            },
            None => {
                proof {
                    if exists|i: int| first_covering(store@, file@, line, i) {
                        let i = choose|i: int| first_covering(store@, file@, line, i);
                        assert(crate::comments::covers(store@[i], file@, line));
                    }
                }
                None
            },
        },
        None => None,
    };
    if let Some((a, b)) = found {
        store.delete(file.as_str(), a, b);
    }
}

/// The lines `(start, end)` of a selection anchored at `anchor` with the
/// cursor on `cursor`, in order.
pub open spec fn ordered(anchor: usize, cursor: usize) -> (usize, usize) {
    if anchor <= cursor { (anchor, cursor) } else { (cursor, anchor) }
}

/// The anchor line of a selection mode.
pub open spec fn selection_anchor(m: InputMode) -> Option<(Seq<char>, usize)> {
    match m {
        InputMode::LineSelect { file, anchor } => Some((file@, anchor)),
        InputMode::CharSelect { file, anchor_line, .. } => Some((file@, anchor_line)),
        _ => None,
    }
}

/// The comment input opened on a selection: its line range (the anchor to
/// the cursor's file line), pre-filled only when a comment has exactly that
/// range, returning to the selection on Esc.
pub fn comment_on_selection(mode: &InputMode, viewer: &FileViewer, store: &CommentStore) -> (r: InputMode)
    requires
        !viewer.diff.diff_mode ==> viewer.cursor_line < usize::MAX,
    ensures
        match selection_anchor(*mode) {
            None => r == *mode,
            Some((f, anchor)) => {
                let cur = match file_line_of_row(*viewer, viewer.cursor_line as int) { Some(l) => l, None => anchor };
                let (a, b) = ordered(anchor, cur);
                match r {
                    InputMode::CommentInput { file, start_line, end_line, text, previous } =>
                        file@ == f && start_line == a && end_line == b && text@ == existing_text(store@, f, a, b)
                        && previous == Some(Box::new(*mode)),
                    _ => false,
                }
            },
        },
{
    let (file, anchor) = match mode {
        InputMode::LineSelect { file, anchor } => (file, *anchor),
        InputMode::CharSelect { file, anchor_line, .. } => (file, *anchor_line),
        _ => { return copy_mode(mode); },
    };
    let current = match viewer.cursor_file_line() { Some(l) => l, None => anchor };
    let start = if anchor <= current { anchor } else { current };
    let end = if anchor <= current { current } else { anchor };
    let text = text_on_range(store, file.as_str(), start, end);
    InputMode::CommentInput {
        file: file.clone(),
        start_line: start,
        end_line: end,
        text,
        previous: Some(Box::new(copy_mode(mode))),
    }
}

/// The lines of the comment being typed give an ordered slice of the shown
/// file (its start less one comes no later than its end, both clamped to the
/// file's length); the code they cover becomes the comment's context.
pub open spec fn comment_range_fits(m: InputMode, content: ViewerContent) -> bool {
    match m {
        InputMode::CommentInput { file, start_line, end_line, .. } => match content {
            ViewerContent::File { path, lines, .. } => path@ == file@ ==> {
                let s = if start_line >= 1 { start_line - 1 } else { 0 };
                (if s < lines@.len() { s } else { lines@.len() as int }) <= (if end_line < lines@.len() { end_line as int } else { lines@.len() as int })
            },
            _ => true,
        },
        _ => true,
    }
}

/// Whether the comment being typed covers an ordered range (see [`comment_range_fits`]).
pub fn comment_range_ok(mode: &InputMode, content: &ViewerContent) -> (r: bool)
    ensures
        r == comment_range_fits(*mode, *content),
{
    match mode {
        InputMode::CommentInput { file, start_line, end_line, .. } => match content {
            ViewerContent::File { path, lines, .. } => {
                if !crate::text::str_eq(path.as_str(), file.as_str()) {
                    return true;
                }
                let s = if *start_line >= 1 { *start_line - 1 } else { 0 };
                let a = if s < lines.len() { s } else { lines.len() };
                let b = if *end_line < lines.len() { *end_line } else { lines.len() };
                a <= b
            },
            _ => true,
        },
        _ => true,
    }
}

/// `a`, `fs` and `r` are the input mode, the comments and the answer after
/// key `k` while a comment is typed in mode `b` with comments `bs` and the
/// viewer showing `content`: Enter stores a non-empty comment on its range,
/// with the code it covers as context.
pub open spec fn comment_input_handled(b: InputMode, k: Key, content: ViewerContent, bs: Seq<Comment>, a: InputMode, fs: Seq<Comment>, r: bool) -> bool {
    &&& r == (k.code == KeyCode::Enter)
    &&& k.code == KeyCode::Enter ==> a == InputMode::Normal && match b {
        InputMode::CommentInput { file, start_line, end_line, text, .. } => if text@.len() > 0 {
            exists|ctx: Vec<String>| lines_view(ctx@) == code_context_for(content, file@, start_line, end_line)
                && #[trigger] comment_added(bs, fs, file@, start_line, end_line, text, ctx)
        } else {
            fs == bs
        },
        _ => fs == bs,
    }
    &&& k.code == KeyCode::Esc ==> fs == bs && a == match b {
        InputMode::CommentInput { previous: Some(p), .. } => *p,
        _ => InputMode::Normal,
    }
    &&& k.code != KeyCode::Enter && k.code != KeyCode::Esc ==> fs == bs && match b {
        InputMode::CommentInput { file, start_line, end_line, text, previous } => match a {
            InputMode::CommentInput { file: f2, start_line: s2, end_line: e2, text: t2, previous: p2 } =>
                f2 == file && s2 == start_line && e2 == end_line && p2 == previous
                && t2@ == match k.code {
                    KeyCode::Backspace => crate::file_tree::popped(text@),
                    KeyCode::Char(c) => text@.push(c),
                    _ => text@,
                },
            _ => false,
        },
        _ => a == b,
    }
}

/// What a key does while a comment is being typed: Enter saves a non-empty
/// comment (with the code it covers as context) and returns to normal mode,
/// Esc goes back to the mode the editor was opened from, Backspace and
/// characters edit the text. Returns whether Enter was pressed.
pub fn handle_comment_input(mode: &mut InputMode, key: &Key, store: &mut CommentStore, content: &ViewerContent) -> (r: bool)
    requires
        comment_range_fits(*old(mode), *content),
    ensures
        comment_input_handled(*old(mode), *key, *content, old(store)@, *final(mode), final(store)@, r),
{
    match key.code {
        KeyCode::Enter => {
            if let InputMode::CommentInput { file, start_line, end_line, text, .. } = &*mode {
                if text.as_str().unicode_len() > 0 {
                    let ctx = extract_code_context(content, file.as_str(), *start_line, *end_line);
                    let ghost kept = ctx;
                    let t = text.clone();
                    store.add(file.as_str(), *start_line, *end_line, t, ctx);
                    assert(comment_added(old(store)@, store@, file@, *start_line, *end_line, *text, kept));
                }
            }
            *mode = InputMode::Normal;
            true
        },
        KeyCode::Esc => {
            let next = match &*mode {
                InputMode::CommentInput { previous: Some(p), .. } => copy_mode(&**p),
                _ => InputMode::Normal,
            };
            *mode = next;
            false
        },
        KeyCode::Backspace => {
            if let InputMode::CommentInput { text, .. } = mode {
                crate::text::pop_char(text);
            }
            false
        },
        KeyCode::Char(c) => {
            if let InputMode::CommentInput { text, .. } = mode {
                crate::text::push_char(text, c);
            }
            false
        },
        _ => false,
    }
}

/// The lines `start..=end` (1-indexed, clamped) of `lines`, joined with
/// newlines.
pub open spec fn joined_range(lines: Seq<Seq<char>>, start: usize, end: usize) -> Seq<char> {
    let s = if start >= 1 { start - 1 } else { 0 };
    let a = if s < lines.len() { s as int } else { lines.len() as int };
    let b = if end < lines.len() { end as int } else { lines.len() as int };
    joined(lines.subrange(a, if b >= a { b } else { a }))
}

/// Lines joined with newlines between them.
pub open spec fn joined(ls: Seq<Seq<char>>) -> Seq<char>
    decreases ls.len(),
{
    if ls.len() == 0 {
        Seq::empty()
    } else if ls.len() == 1 {
        ls[0]
    } else {
        joined(ls.drop_last()) + seq!['\n'] + ls.last()
    }
}

/// The text of a line selection: the selected lines joined with newlines.
pub fn line_selection_text(lines: &[String], anchor: usize, cursor: usize) -> (r: String)
    ensures
        r@ == joined_range(lines_view(lines@), ordered(anchor, cursor).0, ordered(anchor, cursor).1),
{
    let start = if anchor <= cursor { anchor } else { cursor };
    let end = if anchor <= cursor { cursor } else { anchor };
    let s = if start >= 1 { start - 1 } else { 0 };
    let a = if s < lines.len() { s } else { lines.len() };
    let b0 = if end < lines.len() { end } else { lines.len() };
    let b = if b0 >= a { b0 } else { a };
    let ghost lv = lines_view(lines@);
    let mut r = String::new();
    let mut i = a;
    proof {
        assert(r@ =~= joined(lv.subrange(a as int, a as int)));
    }
    while i < b
        invariant
            a <= i <= b,
            b <= lines@.len(),
            lv == lines_view(lines@),
            r@ == joined(lv.subrange(a as int, i as int)),
        decreases b - i,
    {
        proof {
            let t = lv.subrange(a as int, i as int + 1);
            assert(t.drop_last() =~= lv.subrange(a as int, i as int));
            assert(t.last() == lines@[i as int]@);
            if i == a {
                assert(t.len() == 1);
                assert(t[0] == lines@[i as int]@);
            }
        }
        if i > a {
            push_char(&mut r, '\n');
        }
        push_str(&mut r, lines[i].as_str());
        proof {
            if i == a {
                assert(r@ =~= lines@[i as int]@);
            }
        }
        i = i + 1;
    }
    r
}

/// The bounds of a character selection between the anchor and the cursor,
/// in order: `(start_line, start_col, end_line, end_col)`.
pub open spec fn char_bounds(al: usize, ac: usize, cl: usize, cc: usize) -> (usize, usize, usize, usize) {
    if cl < al || (cl == al && cc < ac) { (cl, cc, al, ac) } else { (al, ac, cl, cc) }
}

/// The text of a character selection from `(anchor_line, anchor_col)` to
/// `(cursor_line, cursor_col)` (1-indexed lines, in either order).
pub fn char_selection_text(lines: &[String], anchor_line: usize, anchor_col: usize, cursor_line: usize, cursor_col: usize) -> (r: String)
    ensures
        ({
            let (sl, sc, el, ec) = char_bounds(anchor_line, anchor_col, cursor_line, cursor_col);
            r@ == char_range_text(lines_view(lines@), if sl >= 1 { sl - 1 } else { 0 }, sc as int, if el >= 1 { el - 1 } else { 0 }, ec as int)
        }),
{
    let before = cursor_line < anchor_line || (cursor_line == anchor_line && cursor_col < anchor_col);
    let (sl, sc, el, ec) = if before {
        (cursor_line, cursor_col, anchor_line, anchor_col)
    } else {
        (anchor_line, anchor_col, cursor_line, cursor_col)
    };
    extract_char_range(lines, if sl >= 1 { sl - 1 } else { 0 }, sc, if el >= 1 { el - 1 } else { 0 }, ec)
}

/// What a key did in a selection mode.
pub enum SelectOutcome {
    /// The key means nothing in this mode.
    Ignored,
    /// The key was handled.
    Handled,
    /// The selection's text is to be copied to the clipboard.
    Copy(String),
}

proof fn lemma_comment_ending_same(a: Seq<(Comment, bool)>, b: Seq<(Comment, bool)>, ln: usize)
    requires
        a.len() == b.len(),
        forall|i: int| 0 <= i < a.len() ==> (#[trigger] a[i]).0.start_line == b[i].0.start_line && a[i].0.end_line == b[i].0.end_line,
    ensures
        comment_ending_at(a, ln) == comment_ending_at(b, ln),
    decreases a.len(),
{
    if a.len() > 0 {
        assert forall|i: int| 0 <= i < a.drop_last().len() implies (#[trigger] a.drop_last()[i]).0.start_line == b.drop_last()[i].0.start_line
            && a.drop_last()[i].0.end_line == b.drop_last()[i].0.end_line by {
            assert(a.drop_last()[i] == a[i] && b.drop_last()[i] == b[i]);
        }
        lemma_comment_ending_same(a.drop_last(), b.drop_last(), ln);
        assert(a.last() == a[a.len() - 1] && b.last() == b[b.len() - 1]);
    }
}

/// The comments of the viewed file with their staleness (see [`viewer_comments`]).
pub open spec fn expected_comments(store: Seq<Comment>, v: FileViewer) -> Seq<(Comment, bool)> {
    match viewed_file(v) {
        Some(f) => comments_with_staleness(comments_of_file(store, f), lines_view(file_lines(v.content))),
        None => Seq::empty(),
    }
}

pub fn comments_for_moves(store: &CommentStore, viewer: &FileViewer) -> (r: Vec<(Comment, bool)>)
    ensures
        forall|v: FileViewer| moved_down(v, r@) == moved_down(v, expected_comments(store@, *viewer))
            && moved_up(v, r@) == moved_up(v, expected_comments(store@, *viewer)),
{
    let r = viewer_comments(store, viewer);
    proof {
        let e = expected_comments(store@, *viewer);
        assert forall|ln: usize| comment_ending_at(r@, ln) == comment_ending_at(e, ln) by {
            lemma_comment_ending_same(r@, e, ln);
        }
    }
    r
}

/// The selection's anchor line and the cursor's file line (the anchor on a
/// removed diff row).
pub open spec fn cursor_or(v: FileViewer, anchor: usize) -> usize {
    match file_line_of_row(v, v.cursor_line as int) { Some(l) => l, None => anchor }
}

/// `am`, `av` and `r` are the mode, the viewer and the outcome after key `k`
/// in line-select mode `bm` with viewer `bv` and comments `cs`.
pub open spec fn line_select_handled(bm: InputMode, k: Key, bv: FileViewer, cs: Seq<Comment>, am: InputMode, av: FileViewer, r: SelectOutcome) -> bool {
    &&& (k.code == KeyCode::Char('j') || k.code == KeyCode::Down ==> r is Handled && am == bm
                && av == moved_down(bv, expected_comments(cs, bv)))
    &&& (k.code == KeyCode::Char('k') || k.code == KeyCode::Up ==> r is Handled && am == bm
                && av == moved_up(bv, expected_comments(cs, bv)))
    &&& (k.code == KeyCode::Char('y') ==> am == bm && av == bv && match bm {
                InputMode::LineSelect { anchor, .. } => r matches SelectOutcome::Copy(t)
                    && t@ == joined_range(lines_view(file_lines(bv.content)),
                        ordered(anchor, cursor_or(bv, anchor)).0, ordered(anchor, cursor_or(bv, anchor)).1),
                _ => r is Handled,
            })
    &&& (k.code == KeyCode::Char('c') ==> r is Handled && av == bv && match bm {
                InputMode::LineSelect { file, anchor } => {
                    let (a, b) = ordered(anchor, cursor_or(bv, anchor));
                    match am {
                        InputMode::CommentInput { file: f, start_line, end_line, text, previous } =>
                            f@ == file@ && start_line == a && end_line == b && text@ == existing_text(cs, file@, a, b)
                            && previous == Some(Box::new(bm)),
                        _ => false,
                    }
                },
                _ => am == bm,
            })
    &&& (k.code == KeyCode::Esc ==> r is Handled && am == InputMode::Normal && av == bv)
    &&& (!(k.code == KeyCode::Char('j') || k.code == KeyCode::Down || k.code == KeyCode::Char('k') || k.code == KeyCode::Up
                || k.code == KeyCode::Char('y') || k.code == KeyCode::Char('c') || k.code == KeyCode::Esc)
                ==> r is Ignored && am == bm && av == bv)
}

/// Handle a key in line-select mode: j/k move the cursor (stopping on
/// comment rows), y copies the selected lines, c opens a comment on them,
/// Esc leaves the mode.
pub fn handle_line_select(mode: &mut InputMode, key: &Key, viewer: &mut FileViewer, store: &CommentStore) -> (r: SelectOutcome)
    requires
        old(viewer).scroll_offset + old(viewer).visible_height <= usize::MAX,
        old(viewer).cursor_line + 1 < usize::MAX,
    ensures
        line_select_handled(*old(mode), *key, *old(viewer), store@, *final(mode), *final(viewer), r),

{
    match key.code {
        KeyCode::Char('j') | KeyCode::Down => {
            let cs = comments_for_moves(store, viewer);
            viewer.cursor_down(&cs);
            SelectOutcome::Handled
        },
        KeyCode::Char('k') | KeyCode::Up => {
            let cs = comments_for_moves(store, viewer);
            viewer.cursor_up(&cs);
            SelectOutcome::Handled
        },
        KeyCode::Char('y') => {
            if let InputMode::LineSelect { anchor, .. } = &*mode {
                let cur = match viewer.cursor_file_line() { Some(l) => l, None => *anchor };
                return SelectOutcome::Copy(line_selection_text(viewer.current_lines(), *anchor, cur));
            }
            SelectOutcome::Handled
        },
        KeyCode::Char('c') => {
            if let InputMode::LineSelect { .. } = &*mode {
                let next = comment_on_selection(&*mode, viewer, store);
                *mode = next;
            }
            SelectOutcome::Handled
        },
        KeyCode::Esc => {
            *mode = InputMode::Normal;
            SelectOutcome::Handled
        },
        _ => SelectOutcome::Ignored,
    }
}

/// `am`, `av` and `r` are the mode, the viewer and the outcome after key `k`
/// in character-select mode `bm` with viewer `bv` and comments `cs`.
pub open spec fn char_select_handled(bm: InputMode, k: Key, bv: FileViewer, cs: Seq<Comment>, am: InputMode, av: FileViewer, r: SelectOutcome) -> bool {
    &&& (k.code == KeyCode::Char('y') ==> am == bm && av == bv && match bm {
                InputMode::CharSelect { anchor_line, anchor_col, .. } => r matches SelectOutcome::Copy(t) && {
                    let cl = cursor_or(bv, anchor_line);
                    let cc = match bv.cursor_col { Some(c) => c, None => 0 };
                    let (sl, sc, el, ec) = char_bounds(anchor_line, anchor_col, cl, cc);
                    t@ == char_range_text(lines_view(file_lines(bv.content)), if sl >= 1 { sl - 1 } else { 0 }, sc as int,
                        if el >= 1 { el - 1 } else { 0 }, ec as int)
                },
                _ => r is Handled,
            })
    &&& (k.code == KeyCode::Char('c') ==> r is Handled && av == bv && match bm {
                InputMode::CharSelect { file, anchor_line, .. } => {
                    let (a, b) = ordered(anchor_line, cursor_or(bv, anchor_line));
                    match am {
                        InputMode::CommentInput { file: f, start_line, end_line, text, previous } =>
                            f@ == file@ && start_line == a && end_line == b && text@ == existing_text(cs, file@, a, b)
                            && previous == Some(Box::new(bm)),
                        _ => false,
                    }
                },
                _ => am == bm,
            })
    &&& (k.code == KeyCode::Char('j') || k.code == KeyCode::Down ==> r is Handled && am == bm
                && av == col_clamped(moved_down(bv, expected_comments(cs, bv))))
    &&& (k.code == KeyCode::Char('k') || k.code == KeyCode::Up ==> r is Handled && am == bm
                && av == col_clamped(moved_up(bv, expected_comments(cs, bv))))
    &&& (k.code == KeyCode::Esc ==> r is Handled && am == InputMode::Normal && av == bv)
    &&& (!(k.code == KeyCode::Char('j') || k.code == KeyCode::Down || k.code == KeyCode::Char('k') || k.code == KeyCode::Up
                || k.code == KeyCode::Char('y') || k.code == KeyCode::Char('c') || k.code == KeyCode::Esc)
                ==> r is Ignored && am == bm && av == bv)
}

/// Handle a key in character-select mode: y copies the selected text, c
/// opens a comment on the selected lines, j/k move the cursor keeping its
/// column within the line, Esc leaves the mode.
pub fn handle_char_select(mode: &mut InputMode, key: &Key, viewer: &mut FileViewer, store: &CommentStore) -> (r: SelectOutcome)
    requires
        old(viewer).scroll_offset + old(viewer).visible_height <= usize::MAX,
        old(viewer).cursor_line + 1 < usize::MAX,
    ensures
        char_select_handled(*old(mode), *key, *old(viewer), store@, *final(mode), *final(viewer), r),

{
    match key.code {
        KeyCode::Char('y') => {
            if let InputMode::CharSelect { anchor_line, anchor_col, .. } = &*mode {
                let cl = match viewer.cursor_file_line() { Some(l) => l, None => *anchor_line };
                let cc = match viewer.cursor_col { Some(c) => c, None => 0 };
                return SelectOutcome::Copy(char_selection_text(viewer.current_lines(), *anchor_line, *anchor_col, cl, cc));
            }
            SelectOutcome::Handled
        },
        KeyCode::Char('c') => {
            if let InputMode::CharSelect { .. } = &*mode {
                let next = comment_on_selection(&*mode, viewer, store);
                *mode = next;
            }
            SelectOutcome::Handled
        },
        KeyCode::Char('j') | KeyCode::Down => {
            let cs = comments_for_moves(store, viewer);
            viewer.cursor_down(&cs);
            clamp_cursor_col(viewer);
            SelectOutcome::Handled
        },
        KeyCode::Char('k') | KeyCode::Up => {
            let cs = comments_for_moves(store, viewer);
            viewer.cursor_up(&cs);
            clamp_cursor_col(viewer);
            SelectOutcome::Handled
        },
        KeyCode::Esc => {
            *mode = InputMode::Normal;
            SelectOutcome::Handled
        },
        _ => SelectOutcome::Ignored,
    }
}

fn clamp_cursor_col(viewer: &mut FileViewer)
    ensures
        *final(viewer) == col_clamped(*old(viewer)),
{
    if let Some(col) = viewer.cursor_col {
        let max_col = viewer.line_char_count(viewer.cursor_line);
        viewer.cursor_col = Some(if col <= max_col { col } else { max_col });
    }
}

} // verus!
