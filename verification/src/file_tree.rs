//! The file tree pane: the tree model plus its view state (scrolling,
//! filename search, the comment list and the content search results).
use vstd::prelude::*;
use crate::comments::CommentListEntry;
use crate::components::{Action, Key, KeyCode};
use crate::git_status::GitStatus;
use crate::tree::{FileTreeModel, TreeEntry, EntryView, ContentMatch, views, copy_entries, prepare_spec};
use crate::tree::{lowercase, to_lowercase, occurs_at, occurs_at_exec};
use crate::text::{chars_of, string_from_char_range, to_owned_string};
use crate::paths::{display_path, display_below, parent_of, parent_path};

verus! {

/// State for the comment list view.
pub struct CommentListState {
    pub entries: Vec<CommentListEntry>,
    pub selected: usize,
    pub scroll_offset: usize,
}

/// Search mode state.
pub struct SearchState {
    pub query: String,
    pub saved_entries: Vec<TreeEntry>,
    pub saved_selected: usize,
    pub saved_scroll_offset: usize,
    /// Root directory for recursive search.
    pub root: String,
}

impl SearchState {
    /// A search state with an empty query and nothing saved.
    pub fn new_for_test() -> (r: Self)
        ensures
            r.query@ == Seq::<char>::empty(),
            r.saved_entries@.len() == 0,
            r.saved_selected == 0,
            r.saved_scroll_offset == 0,
            r.root@ == Seq::<char>::empty(),
    {
        SearchState {
            query: String::new(),
            saved_entries: Vec::new(),
            saved_selected: 0,
            saved_scroll_offset: 0,
            root: String::new(),
        }
    }
}

/// An entry in the content search results list.
#[derive(Debug, Clone)]
pub enum ContentSearchEntry {
    Header { display_name: String },
    Match { file: String, line_number: usize, text_preview: String },
}

/// What a content search entry holds, as characters.
pub ghost enum SearchEntryView {
    Header(Seq<char>),
    Match(Seq<char>, usize, Seq<char>),
}

impl View for ContentSearchEntry {
    type V = SearchEntryView;

    open spec fn view(&self) -> SearchEntryView {
        match self {
            ContentSearchEntry::Header { display_name } => SearchEntryView::Header(display_name@),
            ContentSearchEntry::Match { file, line_number, text_preview } =>
                SearchEntryView::Match(file@, *line_number, text_preview@),
        }
    }
}

/// The views of a list of content search entries.
pub open spec fn search_views(s: Seq<ContentSearchEntry>) -> Seq<SearchEntryView> {
    s.map_values(|e: ContentSearchEntry| e@)
}

/// The content search list for `ms`: before each run of matches in one file,
/// a header with that file's path below `root`.
pub open spec fn grouped_matches(ms: Seq<ContentMatch>, root: Seq<char>) -> Seq<SearchEntryView>
    decreases ms.len(),
{
    if ms.len() == 0 {
        Seq::empty()
    } else {
        let m = ms.last();
        let before = grouped_matches(ms.drop_last(), root);
        let with_header = if ms.len() == 1 || ms[ms.len() - 2].file@ != m.file@ {
            before.push(SearchEntryView::Header(display_below(m.file@, root)))
        } else {
            before
        };
        with_header.push(SearchEntryView::Match(m.file@, m.line_number, m.line_text@))
    }
}

/// The characters of each segment, with whether it is highlighted.
pub open spec fn segment_views(s: Seq<(String, bool)>) -> Seq<(Seq<char>, bool)> {
    s.map_values(|p: (String, bool)| (p.0@, p.1))
}

/// The plain segment `text[start..]`, if it is not empty.
pub open spec fn rest_segment(text: Seq<char>, start: int) -> Seq<(Seq<char>, bool)> {
    if start < text.len() {
        seq![(text.subrange(start, text.len() as int), false)]
    } else {
        Seq::empty()
    }
}

/// The plain segment `text[start..end]`, if it is not empty.
pub open spec fn gap_segment(text: Seq<char>, start: int, end: int) -> Seq<(Seq<char>, bool)> {
    if start < end {
        seq![(text.subrange(start, end), false)]
    } else {
        Seq::empty()
    }
}

/// How far the scan at `pos` is from the end of `len` characters.
pub open spec fn scan_left(len: nat, pos: int) -> nat {
    if 0 <= pos <= len {
        (len + 1 - pos) as nat
    } else {
        0
    }
}

/// The segments of `text` from the scan at `pos` on, where the pending plain
/// text starts at `start`: each occurrence of `lq` in `lt` (the lowercased
/// text), leftmost first and not overlapping, marks the `n` characters of
/// `text` at the same place. A match that would run past the end of `text`
/// ends the scan.
pub open spec fn match_segments(text: Seq<char>, lt: Seq<char>, lq: Seq<char>, n: nat, pos: int, start: int) -> Seq<(Seq<char>, bool)>
    decreases scan_left(lt.len(), pos),
{
    if n == 0 || pos < 0 || pos + lq.len() > lt.len() {
        rest_segment(text, start)
    } else if occurs_at(lt, lq, pos) {
        if pos + n > text.len() {
            rest_segment(text, start)
        } else {
            gap_segment(text, start, pos) + seq![(text.subrange(pos, pos + n), true)]
                + match_segments(text, lt, lq, n, pos + n, pos + n)
        }
    } else {
        match_segments(text, lt, lq, n, pos + 1, start)
    }
}

/// A content search result line as segments: `prefix` plain, then `text`
/// with every occurrence of `query` marked, ignoring case (`lt` and `lq`
/// being the lowercased text and query); with an empty query, `text` plain.
pub open spec fn highlighted_segments(prefix: Seq<char>, text: Seq<char>, query: Seq<char>, lt: Seq<char>, lq: Seq<char>) -> Seq<(Seq<char>, bool)> {
    seq![(prefix, false)] + if query.len() == 0 {
        seq![(text, false)]
    } else {
        match_segments(text, lt, lq, query.len(), 0, 0)
    }
}

/// Split a content search result line into segments: `prefix`, then the
/// parts of `text`, each occurrence of `query` (ignoring case, keeping the
/// text's own casing) marked as highlighted.
pub fn build_highlighted_spans(prefix: &str, text: &str, query: &str) -> (r: Vec<(String, bool)>)
    ensures
        segment_views(r@) == highlighted_segments(prefix@, text@, query@, lowercase(text@), lowercase(query@)),
{
    let mut out: Vec<(String, bool)> = Vec::new();
    out.push((to_owned_string(prefix), false));
    let qn = chars_of(query).len();
    if qn == 0 {
        out.push((to_owned_string(text), false));
        proof {
            assert(segment_views(out@) =~= highlighted_segments(prefix@, text@, query@, lowercase(text@), lowercase(query@)));
        }
        return out;
    }
    let t = chars_of(text);
    let lt = chars_of(to_lowercase(text).as_str());
    let lq = chars_of(to_lowercase(query).as_str());
    let ghost goal = highlighted_segments(prefix@, text@, query@, lowercase(text@), lowercase(query@));
    let mut pos: usize = 0;
    let mut start: usize = 0;
    let mut stop = false;
    proof {
        assert(segment_views(out@) + match_segments(t@, lt@, lq@, qn as nat, 0, 0) =~= goal);
    }
    while !stop && lq.len() <= lt.len() && pos <= lt.len() - lq.len()
        invariant
            qn == query@.len(),
            qn > 0,
            t@ == text@,
            lt@ == lowercase(text@),
            lq@ == lowercase(query@),
            start <= pos,
            start <= t@.len(),
            goal == highlighted_segments(prefix@, text@, query@, lowercase(text@), lowercase(query@)),
            segment_views(out@) + match_segments(t@, lt@, lq@, qn as nat, pos as int, start as int) == goal,
            stop ==> match_segments(t@, lt@, lq@, qn as nat, pos as int, start as int) == rest_segment(t@, start as int),
        decreases scan_left(lt@.len(), pos as int) + if stop { 0int } else { 1int },
    {
        if occurs_at_exec(&lt, &lq, pos) {
            if pos > t.len() || qn > t.len() - pos {
                stop = true;
            } else {
                let ghost before = segment_views(out@);
                let end = pos + qn;
                if start < pos {
                    out.push((string_from_char_range(&t, start, pos), false));
                }
                out.push((string_from_char_range(&t, pos, end), true));
                proof {
                    let g = gap_segment(t@, start as int, pos as int);
                    assert(segment_views(out@) =~= before + g + seq![(t@.subrange(pos as int, end as int), true)]);
                    let m = match_segments(t@, lt@, lq@, qn as nat, end as int, end as int);
                    assert(before + g + seq![(t@.subrange(pos as int, end as int), true)] + m
                        =~= before + (g + seq![(t@.subrange(pos as int, end as int), true)] + m));
                }
                pos = end;
                start = end;
            }
        } else {
            proof {
                if lq@.len() == 0 {
                    assert(lt@.subrange(pos as int, pos as int) =~= lq@);
                }
            }
            pos = pos + 1;
        }
    }
    if start < t.len() {
        let ghost before = segment_views(out@);
        out.push((string_from_char_range(&t, start, t.len()), false));
        proof {
            assert(segment_views(out@) =~= before + rest_segment(t@, start as int));
        }
    } else {
        proof {
            assert(segment_views(out@) =~= segment_views(out@) + rest_segment(t@, start as int));
        }
    }
    out
}

/// State for the cross-file content search view.
pub struct ContentSearchState {
    pub query: String,
    pub entries: Vec<ContentSearchEntry>,
    pub selected: usize,
    pub scroll_offset: usize,
    pub match_count: usize,
    pub searching: bool,
    pub saved_entries: Vec<TreeEntry>,
    pub saved_selected: usize,
    pub saved_scroll_offset: usize,
    pub root: String,
}

/// `a - b`, or 0 when `b > a`.
pub open spec fn sat_sub(a: int, b: int) -> int {
    if a >= b { a - b } else { 0 }
}

/// The smaller of two integers.
pub open spec fn min_int(a: int, b: int) -> int {
    if a <= b { a } else { b }
}

/// The scroll offset after scrolling down `lines` over `total` rows of which
/// `height` are visible.
pub open spec fn scrolled_down(offset: int, lines: int, total: int, height: int) -> int {
    min_int(offset + lines, sat_sub(total, height))
}

/// The index that the list selects first: the first entry that is not a
/// header, or 0 when all are headers.
pub open spec fn first_selectable(is_header: Seq<bool>) -> int {
    if exists|i: int| 0 <= i < is_header.len() && !is_header[i] && forall|j: int| 0 <= j < i ==> is_header[j] {
        choose|i: int| 0 <= i < is_header.len() && !is_header[i] && forall|j: int| 0 <= j < i ==> is_header[j]
    } else {
        0
    }
}

/// Which comment-list entries are headers.
pub open spec fn comment_headers(s: Seq<CommentListEntry>) -> Seq<bool> {
    s.map_values(|e: CommentListEntry| e is Header)
}

/// Which content search entries are headers.
pub open spec fn search_headers(s: Seq<ContentSearchEntry>) -> Seq<bool> {
    s.map_values(|e: ContentSearchEntry| e is Header)
}

proof fn lemma_first_selectable(h: Seq<bool>, i: int)
    requires
        0 <= i < h.len(),
        !h[i],
        forall|j: int| 0 <= j < i ==> h[j],
    ensures
        first_selectable(h) == i,
{
    assert(!h[i]);
    let k = choose|k: int| 0 <= k < h.len() && !h[k] && forall|j: int| 0 <= j < k ==> h[j];
    if k < i {
        assert(h[k]);
    } else if k > i {
        assert(h[i]);
    }
}

/// Index of the first entry whose flag is false, or 0.
fn first_unset(flags: &Vec<bool>) -> (r: usize)
    ensures
        r as int == first_selectable(flags@),
        flags@.len() > 0 ==> r < flags@.len(),
{
    let mut i: usize = 0;
    while i < flags.len()
        invariant
            i <= flags@.len(),
            forall|j: int| 0 <= j < i ==> flags@[j],
        decreases flags.len() - i,
    {
        if !flags[i] {
            proof {
                lemma_first_selectable(flags@, i as int);
            }
            return i;
        }
        i = i + 1;
    }
    0
}

fn comment_header_flags(entries: &Vec<CommentListEntry>) -> (r: Vec<bool>)
    ensures
        r@ == comment_headers(entries@),
{
    let mut r: Vec<bool> = Vec::new();
    let mut i: usize = 0;
    while i < entries.len()
        invariant
            i <= entries@.len(),
            r@ == comment_headers(entries@).take(i as int),
        decreases entries.len() - i,
    {
        r.push(entries[i].is_header());
        i = i + 1;
        assert(r@ =~= comment_headers(entries@).take(i as int));
    }
    assert(comment_headers(entries@).take(entries@.len() as int) =~= comment_headers(entries@));
    r
}

fn search_header_flags(entries: &Vec<ContentSearchEntry>) -> (r: Vec<bool>)
    ensures
        r@ == search_headers(entries@),
{
    let mut r: Vec<bool> = Vec::new();
    let mut i: usize = 0;
    while i < entries.len()
        invariant
            i <= entries@.len(),
            r@ == search_headers(entries@).take(i as int),
        decreases entries.len() - i,
    {
        let h = match &entries[i] {
            ContentSearchEntry::Header { .. } => true,
            ContentSearchEntry::Match { .. } => false,
        };
        r.push(h);
        i = i + 1;
        assert(r@ =~= search_headers(entries@).take(i as int));
    }
    assert(search_headers(entries@).take(entries@.len() as int) =~= search_headers(entries@));
    r
}

proof fn lemma_next_unset(h: Seq<bool>, from: int, j: int)
    requires
        from < j < h.len(),
        !h[j],
        forall|k: int| from < k < j ==> h[k],
    ensures
        next_unset(h, from) == j,
{
    let c = choose|c: int| from < c < h.len() && !h[c] && forall|k: int| from < k < c ==> h[k];
    if c < j {
        assert(h[c]);
    } else if c > j {
        assert(h[j]);
    }
}

proof fn lemma_prev_unset(h: Seq<bool>, from: int, j: int)
    requires
        0 <= j < from,
        j < h.len(),
        !h[j],
        forall|k: int| j < k < from && k < h.len() ==> h[k],
    ensures
        prev_unset(h, from) == j,
{
    let c = choose|c: int| 0 <= c < from && c < h.len() && !h[c] && forall|k: int| c < k < from && k < h.len() ==> h[k];
    if c < j {
        assert(h[j]);
    } else if c > j {
        assert(h[c]);
    }
}

/// The next index after `from` whose flag is false.
pub(crate) fn next_unset_index(flags: &Vec<bool>, from: usize) -> (r: Option<usize>)
    ensures
        match r {
            Some(j) => j as int == next_unset(flags@, from as int),
            None => next_unset(flags@, from as int) == -1,
        },
{
    if from >= flags.len() {
        return None;
    }
    let mut i = from;
    while i + 1 < flags.len()
        invariant
            from <= i < flags@.len(),
            forall|k: int| from < k <= i ==> flags@[k],
        decreases flags.len() - i,
    {
        i = i + 1;
        if !flags[i] {
            proof {
                lemma_next_unset(flags@, from as int, i as int);
            }
            return Some(i);
        }
    }
    None
}

/// The last index before `from` whose flag is false.
pub(crate) fn prev_unset_index(flags: &Vec<bool>, from: usize) -> (r: Option<usize>)
    ensures
        match r {
            Some(j) => j as int == prev_unset(flags@, from as int),
            None => prev_unset(flags@, from as int) == -1,
        },
{
    let mut i = if from < flags.len() { from } else { flags.len() };
    while i > 0
        invariant
            i <= from,
            i <= flags@.len(),
            forall|k: int| i <= k < from && k < flags@.len() ==> flags@[k],
        decreases i,
    {
        i = i - 1;
        if !flags[i] {
            proof {
                lemma_prev_unset(flags@, from as int, i as int);
            }
            return Some(i);
        }
    }
    None
}

/// The directory a search starts from: the parent of the first entry's path
/// (the path itself when it has no parent), or the empty path.
pub open spec fn search_root(entries: Seq<EntryView>) -> Seq<char> {
    if entries.len() == 0 {
        Seq::empty()
    } else {
        match parent_of(entries[0].path) {
            Some(p) => p,
            None => entries[0].path,
        }
    }
}

fn search_root_of(entries: &Vec<TreeEntry>) -> (r: String)
    ensures
        r@ == search_root(views(entries@)),
{
    if entries.len() == 0 {
        let e = String::new();
        assert(e@ =~= Seq::<char>::empty());
        return e;
    }
    match parent_path(entries[0].path.as_str()) {
        Some(p) => p,
        None => entries[0].path.clone(),
    }
}

/// The tree pane after cancelling a filename search: what was saved on entry
/// comes back.
pub open spec fn cancelled_search(t: FileTree) -> FileTree {
    match t.search {
        Some(st) => FileTree {
            model: FileTreeModel { entries: st.saved_entries, selected: st.saved_selected, ..t.model },
            scroll_offset: st.saved_scroll_offset,
            search: None,
            ..t
        },
        None => t,
    }
}

/// The entries shown for a filename search: the saved tree for an empty
/// query, else the results with the files' git status filled in.
pub open spec fn search_result_entries(query: Seq<char>, saved: Seq<EntryView>, results: Seq<EntryView>, gs: Option<GitStatus>) -> Seq<EntryView> {
    if query.len() == 0 {
        saved
    } else {
        match gs {
            Some(g) => crate::tree::annotate_spec(results, g.statuses()),
            None => results,
        }
    }
}

/// The next index after `from` whose flag is false, or -1.
pub open spec fn next_unset(h: Seq<bool>, from: int) -> int {
    if exists|j: int| from < j < h.len() && !h[j] && forall|k: int| from < k < j ==> h[k] {
        choose|j: int| from < j < h.len() && !h[j] && forall|k: int| from < k < j ==> h[k]
    } else {
        -1
    }
}

/// The last index before `from` whose flag is false, or -1.
pub open spec fn prev_unset(h: Seq<bool>, from: int) -> int {
    if exists|j: int| 0 <= j < from && j < h.len() && !h[j] && forall|k: int| j < k < from && k < h.len() ==> h[k] {
        choose|j: int| 0 <= j < from && j < h.len() && !h[j] && forall|k: int| j < k < from && k < h.len() ==> h[k]
    } else {
        -1
    }
}

/// The scroll offset that keeps `sel` among `height` visible rows.
pub open spec fn visible_offset(offset: int, sel: int, height: int) -> int {
    if sel < offset {
        sel
    } else if sel >= offset + height {
        sel - height + 1
    } else {
        offset
    }
}

/// The selection after moving by `delta` over `len` entries (clamped).
pub open spec fn moved_index(sel: int, delta: int, len: int) -> int {
    if delta > 0 { min_int(sel + delta, len - 1) } else { sat_sub(sel, -delta) }
}

/// Entries `from..=k` all lie in the subtree of `start` (`start` itself or
/// deeper than it).
pub open spec fn within_subtree(s: Seq<EntryView>, start: int, from: int, k: int) -> bool {
    forall|m: int| from <= m <= k ==> m == start || (#[trigger] s[m]).depth > s[start].depth
}

/// A directory that is not expanded.
pub open spec fn collapsed_dir(e: EntryView) -> bool {
    e.is_directory && !e.is_expanded
}

/// `i` is the root-level ancestor of entry `sel`: the last depth-0 entry at
/// or before it.
pub open spec fn is_root_ancestor(s: Seq<EntryView>, sel: int, i: int) -> bool {
    &&& 0 <= i <= sel < s.len()
    &&& s[i].depth == 0
    &&& forall|j: int| i < j <= sel ==> s[j].depth != 0
}

/// The root-level ancestor of entry `sel`, or -1.
pub open spec fn root_ancestor_of(s: Seq<EntryView>, sel: int) -> int {
    if exists|i: int| is_root_ancestor(s, sel, i) {
        choose|i: int| is_root_ancestor(s, sel, i)
    } else {
        -1
    }
}

proof fn lemma_root_ancestor(s: Seq<EntryView>, sel: int, i: int)
    requires
        is_root_ancestor(s, sel, i),
    ensures
        root_ancestor_of(s, sel) == i,
{
    let c = choose|c: int| is_root_ancestor(s, sel, c);
    if c < i {
        assert(s[i].depth != 0);
    } else if c > i {
        assert(s[c].depth != 0);
    }
}

pub struct FileTree {
    pub model: FileTreeModel,
    /// Scroll offset for the tree view.
    pub scroll_offset: usize,
    /// Active search state (None when not searching).
    pub search: Option<SearchState>,
    /// Cached visible height from last render, used for scroll calculations.
    pub visible_height: usize,
    /// Comment list view state (None when in normal file tree mode).
    pub comment_list: Option<CommentListState>,
    /// Content search state (None when not searching file contents).
    pub content_search: Option<ContentSearchState>,
}

/// `a` is the pane after entering filename search from `b`: an empty query,
/// and the tree's entries, selection and scroll offset saved.
pub open spec fn search_entered(b: FileTree, a: FileTree) -> bool {
    &&& a.search is Some
    &&& a.search->0.query@ == Seq::<char>::empty()
    &&& views(a.search->0.saved_entries@) == views(b.model.entries@)
    &&& a.search->0.saved_selected == b.model.selected
    &&& a.search->0.saved_scroll_offset == b.scroll_offset
    &&& a.search->0.root@ == search_root(views(b.model.entries@))
    &&& a.model == b.model
    &&& a.scroll_offset == b.scroll_offset
    &&& a.visible_height == b.visible_height
    &&& a.comment_list == b.comment_list
    &&& a.content_search == b.content_search
}

/// `a` is the pane after leaving filename search from `b`: with `confirm`
/// the results stay, otherwise what was saved comes back.
pub open spec fn search_left(b: FileTree, confirm: bool, a: FileTree) -> bool {
    &&& a.search is None
    &&& match b.search {
        Some(st) if !confirm => {
            &&& a.model == (FileTreeModel { entries: st.saved_entries, selected: st.saved_selected, ..b.model })
            &&& a.scroll_offset == st.saved_scroll_offset
        },
        _ => a.model == b.model && a.scroll_offset == b.scroll_offset,
    }
    &&& a.visible_height == b.visible_height
    &&& a.comment_list == b.comment_list
    &&& a.content_search == b.content_search
}

/// `a` is the pane after entering content search from `b`: a filename
/// search is cancelled and the comment list closed first, then the tree's
/// state is saved and the results list starts empty.
pub open spec fn content_search_entered(b: FileTree, a: FileTree) -> bool {
    let c = cancelled_search(b);
    &&& a.model == c.model
    &&& a.scroll_offset == c.scroll_offset
    &&& a.search is None
    &&& a.comment_list is None
    &&& a.visible_height == b.visible_height
    &&& a.content_search is Some
    &&& a.content_search->0.query@ == Seq::<char>::empty()
    &&& a.content_search->0.entries@.len() == 0
    &&& a.content_search->0.selected == 0
    &&& a.content_search->0.scroll_offset == 0
    &&& a.content_search->0.match_count == 0
    &&& !a.content_search->0.searching
    &&& views(a.content_search->0.saved_entries@) == views(c.model.entries@)
    &&& a.content_search->0.saved_selected == c.model.selected
    &&& a.content_search->0.saved_scroll_offset == c.scroll_offset
    &&& a.content_search->0.root@ == search_root(views(c.model.entries@))
}

/// `a` is the pane after leaving content search from `b`: the saved tree
/// state comes back.
pub open spec fn content_search_left(b: FileTree, a: FileTree) -> bool {
    &&& a.content_search is None
    &&& match b.content_search {
        Some(cs) => {
            &&& a.model == (FileTreeModel { entries: cs.saved_entries, selected: cs.saved_selected, ..b.model })
            &&& a.scroll_offset == cs.saved_scroll_offset
        },
        None => a.model == b.model && a.scroll_offset == b.scroll_offset,
    }
    &&& a.search == b.search
    &&& a.visible_height == b.visible_height
    &&& a.comment_list == b.comment_list
}

/// Cancelling a filename search right after entering it gives back the tree
/// as it was: the same entries, selection and scroll offset.
pub proof fn law_cancelled_search_restores(t0: FileTree, t1: FileTree, t2: FileTree)
    requires
        search_entered(t0, t1),
        search_left(t1, false, t2),
    ensures
        views(t2.model.entries@) == views(t0.model.entries@),
        t2.model.selected == t0.model.selected,
        t2.model.root == t0.model.root,
        t2.model.git_status == t0.model.git_status,
        t2.model.filter_changed == t0.model.filter_changed,
        t2.scroll_offset == t0.scroll_offset,
        t2.search is None,
{
}

/// Leaving content search gives back the tree as it was before it was
/// entered (with no filename search open then): the same entries,
/// selection and scroll offset.
pub proof fn law_content_search_round_trip(t0: FileTree, t1: FileTree, t2: FileTree)
    requires
        t0.search is None,
        content_search_entered(t0, t1),
        content_search_left(t1, t2),
    ensures
        views(t2.model.entries@) == views(t0.model.entries@),
        t2.model.selected == t0.model.selected,
        t2.model.root == t0.model.root,
        t2.model.git_status == t0.model.git_status,
        t2.scroll_offset == t0.scroll_offset,
        t2.content_search is None,
        t2.comment_list is None,
{
}

/// `a` is still in the content search of `b`, with the tree state saved on
/// entry untouched, and the rest of the tree model and the pane's other
/// modes as they were.
pub open spec fn saved_kept(b: FileTree, a: FileTree) -> bool {
    &&& b.content_search is Some
    &&& a.content_search is Some
    &&& a.content_search->0.saved_entries == b.content_search->0.saved_entries
    &&& a.content_search->0.saved_selected == b.content_search->0.saved_selected
    &&& a.content_search->0.saved_scroll_offset == b.content_search->0.saved_scroll_offset
    &&& a.model.root == b.model.root
    &&& a.model.git_status == b.model.git_status
    &&& a.model.filter_changed == b.model.filter_changed
    &&& a.search == b.search
    &&& a.comment_list == b.comment_list
}

/// Showing results, scrolling, moving the selection and clicking in the
/// content search keep the tree state saved on entry; one step after another
/// keeps it too.
pub proof fn law_content_search_steps_keep_saved(t: FileTree, results: Seq<ContentMatch>, t_apply: FileTree,
    lines: usize, down: bool, row: usize, t_click: FileTree, u: FileTree, w: FileTree)
    requires
        t.content_search is Some,
        t_apply.content_search is Some,
        ({
            let cs = t.content_search->0;
            let ncs = t_apply.content_search->0;
            &&& ncs.saved_entries == cs.saved_entries
            &&& ncs.saved_selected == cs.saved_selected
            &&& ncs.saved_scroll_offset == cs.saved_scroll_offset
            &&& t_apply.model == t.model
            &&& t_apply.search == t.search
            &&& t_apply.comment_list == t.comment_list
        }),
        t_click == t || ({
            let cs = t.content_search->0;
            t_click == (FileTree { content_search: Some(ContentSearchState { selected: (cs.scroll_offset + row) as usize, ..cs }), ..t })
        }),
        saved_kept(t, u),
        saved_kept(u, w),
    ensures
        saved_kept(t, t_apply),
        saved_kept(t, tree_scrolled_down(t, lines)),
        saved_kept(t, tree_scrolled_up(t, lines)),
        saved_kept(t, content_search_moved(t, down)),
        saved_kept(t, t_click),
        saved_kept(t, w),
{
}

/// Leaving content search, after entering it (with no filename search open)
/// and any steps that keep the saved state, gives back the tree as it was
/// before: the same entries, selection and scroll offset.
pub proof fn law_content_search_round_trip_through(t0: FileTree, t1: FileTree, t2: FileTree, t3: FileTree)
    requires
        t0.search is None,
        content_search_entered(t0, t1),
        t2 == t1 || saved_kept(t1, t2),
        content_search_left(t2, t3),
    ensures
        views(t3.model.entries@) == views(t0.model.entries@),
        t3.model.selected == t0.model.selected,
        t3.model.root == t0.model.root,
        t3.model.git_status == t0.model.git_status,
        t3.scroll_offset == t0.scroll_offset,
        t3.content_search is None,
        t3.comment_list is None,
{
}

/// The rows kept visible when moving through a list: the pane height, at
/// least 1.
pub open spec fn list_height(t: FileTree) -> int {
    if t.visible_height == 0 { 1 } else { t.visible_height as int }
}

/// The content search match the selection moves to (-1 for none).
pub open spec fn content_search_target(t: FileTree, down: bool) -> int {
    let cs = t.content_search->0;
    let h = search_headers(cs.entries@);
    if down { next_unset(h, cs.selected as int) } else { prev_unset(h, cs.selected as int) }
}

/// The pane after moving the content search selection to the next (or
/// previous) match and scrolling it into view; unchanged when there is none.
pub open spec fn content_search_moved(t: FileTree, down: bool) -> FileTree {
    let cs = t.content_search->0;
    let j = content_search_target(t, down);
    if j < 0 {
        t
    } else {
        FileTree {
            content_search: Some(ContentSearchState {
                selected: j as usize,
                scroll_offset: visible_offset(cs.scroll_offset as int, j, list_height(t)) as usize,
                ..cs
            }),
            ..t
        }
    }
}

/// The comment the comment-list selection moves to (-1 for none).
pub open spec fn comment_list_target(t: FileTree, down: bool) -> int {
    let cl = t.comment_list->0;
    let h = comment_headers(cl.entries@);
    if down { next_unset(h, cl.selected as int) } else { prev_unset(h, cl.selected as int) }
}

/// The pane after moving the comment-list selection to the next (or
/// previous) comment and scrolling it into view; unchanged when there is none.
pub open spec fn comment_list_moved(t: FileTree, down: bool) -> FileTree {
    let cl = t.comment_list->0;
    let j = comment_list_target(t, down);
    if j < 0 {
        t
    } else {
        FileTree {
            comment_list: Some(CommentListState {
                selected: j as usize,
                scroll_offset: visible_offset(cl.scroll_offset as int, j, list_height(t)) as usize,
                ..cl
            }),
            ..t
        }
    }
}

/// What moving through the comment list asks for: a preview of the comment
/// moved to.
pub open spec fn comment_list_move_action(t: FileTree, down: bool) -> Action {
    let j = comment_list_target(t, down);
    if j < 0 {
        Action::NoAction
    } else {
        match t.comment_list->0.entries@[j] {
            CommentListEntry::Comment { file, start_line, .. } => Action::CommentFocused { file, line: start_line },
            CommentListEntry::Header { .. } => Action::NoAction,
        }
    }
}

/// The query after removing its last character (unchanged when empty).
pub open spec fn popped(q: Seq<char>) -> Seq<char> {
    if q.len() == 0 { q } else { q.drop_last() }
}

/// What Enter asks for in content search: a jump to the selected match.
pub open spec fn content_search_enter_action(cs: ContentSearchState) -> Action {
    if cs.selected < cs.entries@.len() {
        match cs.entries@[cs.selected as int] {
            ContentSearchEntry::Match { file, line_number, .. } => Action::CommentJumped { file, line: line_number },
            ContentSearchEntry::Header { .. } => Action::NoAction,
        }
    } else {
        Action::NoAction
    }
}

/// `a` and `r` are the pane and the action after key `k` in content search
/// from `b`.
pub open spec fn content_search_key_handled(b: FileTree, k: Key, a: FileTree, r: Action) -> bool {
    let cs = b.content_search->0;
    match k.code {
        KeyCode::Esc => content_search_left(b, a) && r is NoAction,
        KeyCode::Enter => a == b && r == content_search_enter_action(cs),
        KeyCode::Backspace => {
            &&& a.content_search is Some
            &&& a == (FileTree { content_search: Some(ContentSearchState { query: a.content_search->0.query, ..cs }), ..b })
            &&& a.content_search->0.query@ == popped(cs.query@)
            &&& r is ContentSearchRequested
        },
        KeyCode::Down => a == content_search_moved(b, true) && r is NoAction,
        KeyCode::Up => a == content_search_moved(b, false) && r is NoAction,
        KeyCode::Char(c) => {
            &&& a.content_search is Some
            &&& a == (FileTree { content_search: Some(ContentSearchState { query: a.content_search->0.query, ..cs }), ..b })
            &&& a.content_search->0.query@ == cs.query@.push(c)
            &&& r is ContentSearchRequested
        },
        _ => a == b && r is NoAction,
    }
}

/// The selected comment-list entry when it is a comment.
pub open spec fn selected_list_comment(cl: CommentListState) -> Option<CommentListEntry> {
    if cl.selected < cl.entries@.len() && cl.entries@[cl.selected as int] is Comment {
        Some(cl.entries@[cl.selected as int])
    } else {
        None
    }
}

/// `a` and `r` are the pane and the action after key `k` in the comment
/// list from `b`.
pub open spec fn comment_list_key_handled(b: FileTree, k: Key, a: FileTree, r: Action) -> bool {
    let cl = b.comment_list->0;
    if k.is_char('j') || k.code == KeyCode::Down || k.is_char('k') || k.code == KeyCode::Up {
        let down = k.is_char('j') || k.code == KeyCode::Down;
        if cl.entries@.len() == 0 {
            a == b && r is NoAction
        } else {
            a == comment_list_moved(b, down) && r == comment_list_move_action(b, down)
        }
    } else if k.code == KeyCode::Enter {
        a == b && r == match selected_list_comment(cl) {
            Some(CommentListEntry::Comment { file, start_line, .. }) => Action::CommentJumped { file, line: start_line },
            _ => Action::NoAction,
        }
    } else if k.is_char('x') || k.code == KeyCode::Delete || k.code == KeyCode::Backspace {
        a == b && r == match selected_list_comment(cl) {
            Some(CommentListEntry::Comment { file, start_line, end_line, .. }) => Action::DeleteCommentAt { file, start_line, end_line },
            _ => Action::NoAction,
        }
    } else if k.is_char('c') || k.code == KeyCode::Esc {
        a == (FileTree { comment_list: None, ..b }) && r is NoAction
    } else if k.code == KeyCode::Tab {
        a == b && r is SwitchFocus
    } else if k.is_char('q') {
        a == b && r is Quit
    } else {
        a == b && r is NoAction
    }
}

/// The tree pane after moving the selection by `delta` and scrolling it into
/// view.
pub open spec fn tree_moved(t: FileTree, delta: int) -> FileTree {
    let len = t.model.entries@.len() as int;
    let i = if len == 0 { t.model.selected as int } else { moved_index(t.model.selected as int, delta, len) };
    FileTree {
        model: FileTreeModel { selected: i as usize, ..t.model },
        scroll_offset: if t.visible_height == 0 {
            t.scroll_offset
        } else {
            visible_offset(t.scroll_offset as int, i, t.visible_height as int) as usize
        },
        ..t
    }
}

/// What moving the tree selection by `delta` reports: the file now under
/// the cursor.
pub open spec fn tree_move_action(t: FileTree, delta: int) -> Action {
    let len = t.model.entries@.len() as int;
    let i = moved_index(t.model.selected as int, delta, len);
    if len > 0 && 0 <= i < len && !t.model.entries@[i].is_directory {
        Action::FileSelected(t.model.entries@[i].path)
    } else {
        Action::NoAction
    }
}

/// What Enter asks for in the tree: to open the selected file.
pub open spec fn open_selected_action(t: FileTree) -> Action {
    if t.model.selected < t.model.entries@.len() && !t.model.entries@[t.model.selected as int].is_directory {
        Action::FileOpened(t.model.entries@[t.model.selected as int].path)
    } else {
        Action::NoAction
    }
}

/// `a` and `r` are the pane and the action after key `k` in filename
/// search from `b`, and `run` says whether the search must run again.
pub open spec fn search_key_handled(b: FileTree, k: Key, a: FileTree, r: Action, run: bool) -> bool {
    let st = b.search->0;
    match k.code {
        KeyCode::Enter => search_left(b, true, a) && r == open_selected_action(b) && !run,
        KeyCode::Esc => search_left(b, false, a) && r is NoAction && !run,
        KeyCode::Char(c) => {
            &&& a.search is Some
            &&& a == (FileTree { search: Some(SearchState { query: a.search->0.query, ..st }), ..b })
            &&& a.search->0.query@ == st.query@.push(c)
            &&& r is NoAction && run
        },
        KeyCode::Backspace => {
            &&& a.search is Some
            &&& a == (FileTree { search: Some(SearchState { query: a.search->0.query, ..st }), ..b })
            &&& a.search->0.query@ == popped(st.query@)
            &&& r is NoAction && run
        },
        KeyCode::Down => a == tree_moved(b, 1) && r == tree_move_action(b, 1) && !run,
        KeyCode::Up => a == tree_moved(b, -1) && r == tree_move_action(b, -1) && !run,
        _ => a == b && r is NoAction && !run,
    }
}

/// `a` shows `b`'s entries with directory `i` collapsed and `i` selected, the
/// scroll offset keeping it in view; nothing else changes.
pub open spec fn collapsed_and_selected(b: FileTree, a: FileTree, i: int, collapse: bool) -> bool {
    let s = views(b.model.entries@);
    &&& views(a.model.entries@) == (if collapse {
            crate::tree::toggled(s, i, Seq::empty(), b.model.git(), b.model.filter_changed)
        } else {
            s
        })
    &&& a.model.selected == i
    &&& a.model.root_path() == b.model.root_path()
    &&& a.model.git() == b.model.git()
    &&& a.model.filter_changed == b.model.filter_changed
    &&& a.scroll_offset == (if b.visible_height == 0 {
            b.scroll_offset as int
        } else {
            visible_offset(b.scroll_offset as int, i, b.visible_height as int)
        })
    &&& a.search == b.search
    &&& a.visible_height == b.visible_height
    &&& a.comment_list == b.comment_list
    &&& a.content_search == b.content_search
}

/// `a` is `b` folded up to the selection's root-level ancestor: that
/// ancestor collapsed (when an expanded directory) and selected. Unchanged
/// when there is no such ancestor.
pub open spec fn folded_to_root(b: FileTree, a: FileTree) -> bool {
    let s = views(b.model.entries@);
    let i = root_ancestor_of(s, b.model.selected as int);
    if i < 0 {
        a == b
    } else {
        collapsed_and_selected(b, a, i, s[i].is_directory && s[i].is_expanded)
    }
}

/// `j` is the parent directory entry of entry `sel`: the last directory
/// before it one level shallower.
pub open spec fn is_parent_row(s: Seq<EntryView>, sel: int, j: int) -> bool {
    &&& 0 <= j < sel < s.len()
    &&& s[sel].depth > 0
    &&& s[j].depth == s[sel].depth - 1 && s[j].is_directory
    &&& forall|k: int| j < k < sel ==> !(s[k].depth == s[sel].depth - 1 && s[k].is_directory)
}

/// The parent directory entry of entry `sel`, or -1.
pub open spec fn parent_row(s: Seq<EntryView>, sel: int) -> int {
    if exists|j: int| is_parent_row(s, sel, j) { choose|j: int| is_parent_row(s, sel, j) } else { -1 }
}

proof fn lemma_parent_row(s: Seq<EntryView>, sel: int, j: int)
    requires
        is_parent_row(s, sel, j),
    ensures
        parent_row(s, sel) == j,
{
    let c = choose|c: int| is_parent_row(s, sel, c);
    if c < j {
        assert(!(s[j].depth == s[sel].depth - 1 && s[j].is_directory));
    } else if c > j {
        assert(!(s[c].depth == s[sel].depth - 1 && s[c].is_directory));
    }
}

/// What the tree asks the application to do after a key, besides the
/// action: the outside work (scanning directories) that must follow.
#[derive(Debug, Clone, Copy, PartialEq, Eq, Structural)]
pub enum TreeCommand {
    /// Nothing to do.
    Nothing,
    /// Scan the selected directory and expand it with `toggle_expand`.
    ExpandSelected,
    /// Expand every directory below the selection (see `next_collapsed_dir`).
    ExpandAllBelowSelected,
    /// Scan the root and toggle the changed-files filter (`apply_filter_toggle`).
    ToggleFilter,
    /// Run the filename search for the current query (`apply_search_results`).
    RunFileSearch,
}

/// What happens to a double-tap timer.
#[derive(Debug, Clone, Copy, PartialEq, Eq, Structural)]
pub enum TapTimer {
    Keep,
    Start,
    Clear,
}

/// The answer of the tree pane to a key.
#[derive(Debug, Clone, PartialEq)]
pub struct TreeResponse {
    pub action: Action,
    pub command: TreeCommand,
    /// The timer of the last expand (a second `l` soon after expands all).
    pub expand_timer: TapTimer,
    /// The timer of the last collapse (a second `h` soon after folds to the root).
    pub collapse_timer: TapTimer,
}

/// The pane after scrolling its active view (content search, comment list
/// or tree) down by `lines`.
pub open spec fn tree_scrolled_down(t: FileTree, lines: usize) -> FileTree {
    match t.content_search {
        Some(cs) => FileTree {
            content_search: Some(ContentSearchState {
                scroll_offset: scrolled_down(cs.scroll_offset as int, lines as int, cs.entries@.len() as int, t.visible_height as int) as usize,
                ..cs
            }),
            ..t
        },
        None => match t.comment_list {
            Some(cl) => FileTree {
                comment_list: Some(CommentListState {
                    scroll_offset: scrolled_down(cl.scroll_offset as int, lines as int, cl.entries@.len() as int, t.visible_height as int) as usize,
                    ..cl
                }),
                ..t
            },
            None => FileTree {
                scroll_offset: scrolled_down(t.scroll_offset as int, lines as int, t.model.entries@.len() as int, t.visible_height as int) as usize,
                ..t
            },
        },
    }
}

/// The pane after scrolling its active view up by `lines`.
pub open spec fn tree_scrolled_up(t: FileTree, lines: usize) -> FileTree {
    match t.content_search {
        Some(cs) => FileTree {
            content_search: Some(ContentSearchState { scroll_offset: sat_sub(cs.scroll_offset as int, lines as int) as usize, ..cs }),
            ..t
        },
        None => match t.comment_list {
            Some(cl) => FileTree {
                comment_list: Some(CommentListState { scroll_offset: sat_sub(cl.scroll_offset as int, lines as int) as usize, ..cl }),
                ..t
            },
            None => FileTree { scroll_offset: sat_sub(t.scroll_offset as int, lines as int) as usize, ..t },
        },
    }
}

/// The machine limits the pane's key handling works within: list positions
/// and offsets plus a page stay below the largest `usize`.
pub open spec fn tree_key_fits(t: FileTree) -> bool {
    &&& t.content_search is Some ==> t.content_search->0.selected <= t.content_search->0.entries@.len()
        && t.content_search->0.scroll_offset + t.visible_height + 1 <= usize::MAX
    &&& t.comment_list is Some ==> t.comment_list->0.selected <= t.comment_list->0.entries@.len()
        && t.comment_list->0.scroll_offset + t.visible_height + 1 <= usize::MAX
    &&& t.model.selected + 1 <= usize::MAX
    &&& t.scroll_offset + t.visible_height <= usize::MAX
    &&& forall|j: int| 0 <= j < t.model.entries@.len() ==> (#[trigger] t.model.entries@[j]).depth < usize::MAX
}

/// `a` and `r` are the pane and the response after key `k` in `b`: content
/// search, the comment list, filename search and the plain tree each
/// handle keys in their own way.
pub open spec fn tree_key_result(b: FileTree, k: Key, edt: bool, cdt: bool, a: FileTree, r: TreeResponse) -> bool {
    if b.content_search is Some {
        content_search_key_handled(b, k, a, r.action) && r == just(r.action)
    } else if b.comment_list is Some {
        comment_list_key_handled(b, k, a, r.action) && r == just(r.action)
    } else if b.search is Some {
        &&& search_key_handled(b, k, a, r.action, r.command == TreeCommand::RunFileSearch)
        &&& r.command == TreeCommand::Nothing || r.command == TreeCommand::RunFileSearch
        &&& r.expand_timer == TapTimer::Keep && r.collapse_timer == TapTimer::Keep
    } else {
        tree_key_handled(b, k, edt, cdt, a, r)
    }
}

/// A response with only an action.
pub open spec fn just(a: Action) -> TreeResponse {
    TreeResponse { action: a, command: TreeCommand::Nothing, expand_timer: TapTimer::Keep, collapse_timer: TapTimer::Keep }
}

/// `a` and `r` are the pane and the response after key `k` in the plain tree
/// view from `b`; `edt` and `cdt` say whether the key comes soon after the
/// last expand or collapse.
pub open spec fn tree_key_handled(b: FileTree, k: Key, edt: bool, cdt: bool, a: FileTree, r: TreeResponse) -> bool {
    let s = views(b.model.entries@);
    let sel = b.model.selected as int;
    let has_sel = sel < s.len();
    if k.is_char('j') || k.code == KeyCode::Down {
        a == tree_moved(b, 1) && r == just(tree_move_action(b, 1))
    } else if k.is_char('k') || k.code == KeyCode::Up {
        a == tree_moved(b, -1) && r == just(tree_move_action(b, -1))
    } else if k.is_char('l') || k.code == KeyCode::Right {
        a == b && r == (if has_sel && s[sel].is_directory {
            if !s[sel].is_expanded {
                TreeResponse { action: Action::NoAction, command: TreeCommand::ExpandSelected, expand_timer: TapTimer::Start, collapse_timer: TapTimer::Keep }
            } else if edt {
                TreeResponse { action: Action::NoAction, command: TreeCommand::ExpandAllBelowSelected, expand_timer: TapTimer::Clear, collapse_timer: TapTimer::Keep }
            } else {
                TreeResponse { action: Action::NoAction, command: TreeCommand::Nothing, expand_timer: TapTimer::Start, collapse_timer: TapTimer::Keep }
            }
        } else {
            just(Action::NoAction)
        })
    } else if k.is_char('h') || k.code == KeyCode::Left {
        if !has_sel {
            a == b && r == just(Action::NoAction)
        } else if s[sel].is_directory && s[sel].is_expanded {
            &&& views(a.model.entries@) == crate::tree::toggled(s, sel, Seq::empty(), b.model.git(), b.model.filter_changed)
            &&& a.model.selected == b.model.selected
            &&& a.model.root_path() == b.model.root_path()
            &&& a.model.git() == b.model.git()
            &&& a.model.filter_changed == b.model.filter_changed
            &&& a == (FileTree { model: a.model, ..b })
            &&& r == (TreeResponse { action: Action::NoAction, command: TreeCommand::Nothing, expand_timer: TapTimer::Keep, collapse_timer: TapTimer::Start })
        } else if cdt {
            folded_to_root(b, a)
                && r == (TreeResponse { action: Action::NoAction, command: TreeCommand::Nothing, expand_timer: TapTimer::Keep, collapse_timer: TapTimer::Clear })
        } else {
            let p = parent_row(s, sel);
            if p < 0 {
                a == b && r == just(Action::NoAction)
            } else if s[p].is_expanded {
                collapsed_and_selected(b, a, p, true)
                    && r == (TreeResponse { action: Action::NoAction, command: TreeCommand::Nothing, expand_timer: TapTimer::Keep, collapse_timer: TapTimer::Start })
            } else {
                collapsed_and_selected(b, a, p, false)
                    && r == (TreeResponse { action: Action::NoAction, command: TreeCommand::ExpandSelected, expand_timer: TapTimer::Keep, collapse_timer: TapTimer::Start })
            }
        }
    } else if k.code == KeyCode::Enter {
        a == b && r == just(open_selected_action(b))
    } else if k.is_char('/') {
        search_entered(b, a) && r == just(Action::NoAction)
    } else if k.is_char('g') {
        a == b && r == (TreeResponse { action: Action::NoAction, command: TreeCommand::ToggleFilter, expand_timer: TapTimer::Keep, collapse_timer: TapTimer::Keep })
    } else if k.is_char('c') {
        a == b && r == just(Action::EnterCommentList)
    } else if k.code == KeyCode::Tab {
        a == b && r == just(Action::SwitchFocus)
    } else if k.is_char('q') {
        a == b && r == just(Action::Quit)
    } else {
        a == b && r == just(Action::NoAction)
    }
}

impl FileTree {
    /// A tree pane over `root`, whose scan is `scanned`, at the top with no
    /// search or list open.
    pub fn new(root: &str, scanned: Vec<TreeEntry>, git_status: Option<GitStatus>) -> (r: Self)
        requires
            crate::tree::root_listing(views(scanned@)),
        ensures
            views(r.model.entries@) == prepare_spec(crate::tree::without_git(views(scanned@)), git_status, root@, 0, false),
            forall|i: int| 0 <= i < r.model.entries@.len() ==> crate::tree::shown_name_ok(#[trigger] views(r.model.entries@)[i], git_status),
            r.model.selected == 0,
            !r.model.filter_changed,
            r.model.root_path() == root@,
            r.model.git() == git_status,
            r.scroll_offset == 0,
            r.search is None,
            r.visible_height == 0,
            r.comment_list is None,
            r.content_search is None,
    {
        let model = FileTreeModel::from_dir(root, scanned, git_status);
        FileTree {
            model,
            scroll_offset: 0,
            search: None,
            visible_height: 0,
            comment_list: None,
            content_search: None,
        }
    }

    /// Enter comment list mode with the given entries, selecting the first
    /// comment.
    pub fn enter_comment_list(&mut self, entries: Vec<CommentListEntry>)
        ensures
            final(self).comment_list is Some,
            final(self).comment_list->0.entries@ == entries@,
            final(self).comment_list->0.selected == first_selectable(comment_headers(entries@)),
            final(self).comment_list->0.scroll_offset == 0,
            *final(self) == (FileTree { comment_list: final(self).comment_list, ..*old(self) }),
    {
        let flags = comment_header_flags(&entries);
        let first = first_unset(&flags);
        self.comment_list = Some(CommentListState { entries, selected: first, scroll_offset: 0 });
    }

    /// Exit comment list mode, returning to the file tree.
    pub fn exit_comment_list(&mut self)
        ensures
            *final(self) == (FileTree { comment_list: None, ..*old(self) }),
    {
        self.comment_list = None;
    }

    /// Whether the file tree is currently in comment list mode.
    pub fn is_comment_list_mode(&self) -> (r: bool)
        ensures
            r == self.comment_list is Some,
    {
        self.comment_list.is_some()
    }

    /// The selected comment-list entry when it is a comment (not a header).
    pub fn selected_comment(&self) -> (r: Option<&CommentListEntry>)
        ensures
            match self.comment_list {
                Some(cl) => if cl.selected < cl.entries@.len() && cl.entries@[cl.selected as int] is Comment {
                    r == Some(&cl.entries@[cl.selected as int])
                } else {
                    r is None
                },
                None => r is None,
            },
    {
        match &self.comment_list {
            Some(cl) => {
                if cl.selected < cl.entries.len() && !cl.entries[cl.selected].is_header() {
                    Some(&cl.entries[cl.selected])
                } else {
                    None
                }
            },
            None => None,
        }
    }
    /// Scroll the active view (content search, comment list, or tree) down
    /// by `lines`, stopping where the last row is at the bottom.
    pub fn scroll_down(&mut self, lines: usize)
        requires
            match old(self).content_search {
                Some(cs) => cs.scroll_offset + lines <= usize::MAX,
                None => match old(self).comment_list {
                    Some(cl) => cl.scroll_offset + lines <= usize::MAX,
                    None => old(self).scroll_offset + lines <= usize::MAX,
                },
            },
        ensures
            *final(self) == tree_scrolled_down(*old(self), lines),
    {
        let vh = self.visible_height;
        if let Some(cs) = &mut self.content_search {
            let total = cs.entries.len();
            let max = if total >= vh { total - vh } else { 0 };
            let next = cs.scroll_offset + lines;
            cs.scroll_offset = if next <= max { next } else { max };
        } else if let Some(cl) = &mut self.comment_list {
            let total = cl.entries.len();
            let max = if total >= vh { total - vh } else { 0 };
            let next = cl.scroll_offset + lines;
            cl.scroll_offset = if next <= max { next } else { max };
        } else {
            let total = self.model.entries.len();
            let max = if total >= vh { total - vh } else { 0 };
            let next = self.scroll_offset + lines;
            self.scroll_offset = if next <= max { next } else { max };
        }
    }

    /// Scroll the active view (content search, comment list, or tree) up by
    /// `lines`, stopping at the top.
    pub fn scroll_up(&mut self, lines: usize)
        ensures
            *final(self) == tree_scrolled_up(*old(self), lines),
    {
        if let Some(cs) = &mut self.content_search {
            cs.scroll_offset = if cs.scroll_offset >= lines { cs.scroll_offset - lines } else { 0 };
        } else if let Some(cl) = &mut self.comment_list {
            cl.scroll_offset = if cl.scroll_offset >= lines { cl.scroll_offset - lines } else { 0 };
        } else {
            self.scroll_offset = if self.scroll_offset >= lines { self.scroll_offset - lines } else { 0 };
        }
    }
    /// Handle a click on row `inner_row` of the pane: in content search or
    /// the comment list, a click on a match or comment selects it and jumps
    /// there; anything else does nothing.
    pub fn click_entry(&mut self, inner_row: usize) -> (r: Action)
        requires
            match old(self).content_search {
                Some(cs) => cs.scroll_offset + inner_row <= usize::MAX,
                None => match old(self).comment_list {
                    Some(cl) => cl.scroll_offset + inner_row <= usize::MAX,
                    None => true,
                },
            },
        ensures
            match old(self).content_search {
                Some(cs) => {
                    let idx = cs.scroll_offset + inner_row;
                    if idx < cs.entries@.len() && cs.entries@[idx] is Match {
                        &&& *final(self) == (FileTree {
                                content_search: Some(ContentSearchState { selected: idx as usize, ..cs }),
                                ..*old(self)
                            })
                        &&& r matches Action::CommentJumped { file, line }
                        &&& cs.entries@[idx]@ matches SearchEntryView::Match(f, n, _)
                        &&& file@ == f && line == n
                    } else {
                        *final(self) == *old(self) && r is NoAction
                    }
                },
                None => match old(self).comment_list {
                    Some(cl) => {
                        let idx = cl.scroll_offset + inner_row;
                        if idx < cl.entries@.len() && cl.entries@[idx] is Comment {
                            &&& *final(self) == (FileTree {
                                    comment_list: Some(CommentListState { selected: idx as usize, ..cl }),
                                    ..*old(self)
                                })
                            &&& r matches Action::CommentJumped { file, line }
                            &&& cl.entries@[idx] matches CommentListEntry::Comment { file: f, start_line: n, .. }
                            &&& file@ == f@ && line == n
                        } else {
                            *final(self) == *old(self) && r is NoAction
                        }
                    },
                    None => *final(self) == *old(self) && r is NoAction,
                },
            },
    {
        if let Some(cs) = &mut self.content_search {
            let idx = cs.scroll_offset + inner_row;
            if idx < cs.entries.len() {
                if let ContentSearchEntry::Match { file, line_number, .. } = &cs.entries[idx] {
                    let file = file.clone();
                    let line = *line_number;
                    cs.selected = idx;
                    return Action::CommentJumped { file, line };
                }
            }
            Action::NoAction
        } else if let Some(cl) = &mut self.comment_list {
            let idx = cl.scroll_offset + inner_row;
            if idx < cl.entries.len() {
                if let CommentListEntry::Comment { file, start_line, .. } = &cl.entries[idx] {
                    let file = file.clone();
                    let line = *start_line;
                    cl.selected = idx;
                    return Action::CommentJumped { file, line };
                }
            }
            Action::NoAction
        } else {
            Action::NoAction
        }
    }

    /// Adjust the tree's scroll offset so that the selection is among the
    /// `visible_height` rows shown (nothing to do for a height of 0).
    pub fn ensure_visible(&mut self, visible_height: usize)
        requires
            old(self).scroll_offset + visible_height <= usize::MAX,
        ensures
            *final(self) == (FileTree {
                scroll_offset: if visible_height == 0 {
                    old(self).scroll_offset
                } else if old(self).model.selected < old(self).scroll_offset {
                    old(self).model.selected
                } else if old(self).model.selected >= old(self).scroll_offset + visible_height {
                    (old(self).model.selected - visible_height + 1) as usize
                } else {
                    old(self).scroll_offset
                },
                ..*old(self)
            }),
    {
        if visible_height == 0 {
            return;
        }
        if self.model.selected < self.scroll_offset {
            self.scroll_offset = self.model.selected;
        } else if self.model.selected >= self.scroll_offset + visible_height {
            self.scroll_offset = self.model.selected - visible_height + 1;
        }
    }

    /// Activate filename search, saving the tree's entries, selection and
    /// scroll offset.
    pub fn enter_search(&mut self)
        ensures
            search_entered(*old(self), *final(self)),
    {
        let root = search_root_of(&self.model.entries);
        let saved = copy_entries(&self.model.entries);
        let query = String::new();
        assert(query@ =~= Seq::<char>::empty());
        self.search = Some(SearchState {
            query,
            saved_entries: saved,
            saved_selected: self.model.selected,
            saved_scroll_offset: self.scroll_offset,
            root,
        });
    }

    /// Leave filename search: with `confirm` keep the results and
    /// selection, otherwise restore what was saved on entry.
    pub fn exit_search(&mut self, confirm: bool)
        ensures
            search_left(*old(self), confirm, *final(self)),
    {
        if let Some(search) = self.search.take() {
            if !confirm {
                self.model.entries = search.saved_entries;
                self.model.selected = search.saved_selected;
                self.scroll_offset = search.saved_scroll_offset;
            }
        }
    }
    /// Show the results of a filename search: the saved tree when the query
    /// is empty, else `results` (the matches of the query below the search
    /// root) with the files' git status filled in; the first row is selected.
    /// Nothing happens outside search mode.
    pub fn apply_search_results(&mut self, results: Vec<TreeEntry>)
        ensures
            match old(self).search {
                Some(st) => {
                    &&& views(final(self).model.entries@) == search_result_entries(st.query@, views(st.saved_entries@), views(results@), old(self).model.git())
                    &&& final(self).model.selected == 0
                    &&& final(self).scroll_offset == 0
                    &&& final(self).model.root == old(self).model.root
                    &&& final(self).model.git_status == old(self).model.git_status
                    &&& final(self).model.filter_changed == old(self).model.filter_changed
                    &&& final(self).search == old(self).search
                    &&& final(self).visible_height == old(self).visible_height
                    &&& final(self).comment_list == old(self).comment_list
                    &&& final(self).content_search == old(self).content_search
                },
                None => *final(self) == *old(self),
            },
    {
        let entries = match &self.search {
            None => { return; },
            Some(st) => {
                if st.query.as_str().unicode_len() == 0 {
                    copy_entries(&st.saved_entries)
                } else {
                    let mut entries = results;
                    match &self.model.git_status {
                        Some(gs) => crate::tree::annotate_entries(&mut entries, gs),
                        None => {},
                    }
                    entries
                }
            },
        };
        self.model.entries = entries;
        self.model.selected = 0;
        self.scroll_offset = 0;
    }

    /// Add a character to the filename search query.
    pub fn search_push(&mut self, c: char)
        ensures
            match old(self).search {
                Some(st) => final(self).search is Some && final(self).search->0.query@ == st.query@.push(c)
                    && final(self).search->0.saved_entries == st.saved_entries
                    && final(self).search->0.saved_selected == st.saved_selected
                    && final(self).search->0.saved_scroll_offset == st.saved_scroll_offset
                    && final(self).search->0.root == st.root,
                None => final(self).search is None,
            },
            final(self).model == old(self).model,
            final(self).scroll_offset == old(self).scroll_offset,
            final(self).visible_height == old(self).visible_height,
            final(self).comment_list == old(self).comment_list,
            final(self).content_search == old(self).content_search,
    {
        if let Some(st) = &mut self.search {
            crate::text::push_char(&mut st.query, c);
        }
    }

    /// Remove the last character of the filename search query.
    pub fn search_pop(&mut self)
        ensures
            match old(self).search {
                Some(st) => final(self).search is Some
                    && final(self).search->0.query@ == (if st.query@.len() == 0 { st.query@ } else { st.query@.drop_last() })
                    && final(self).search->0.saved_entries == st.saved_entries
                    && final(self).search->0.saved_selected == st.saved_selected
                    && final(self).search->0.saved_scroll_offset == st.saved_scroll_offset
                    && final(self).search->0.root == st.root,
                None => final(self).search is None,
            },
            final(self).model == old(self).model,
            final(self).scroll_offset == old(self).scroll_offset,
            final(self).visible_height == old(self).visible_height,
            final(self).comment_list == old(self).comment_list,
            final(self).content_search == old(self).content_search,
    {
        if let Some(st) = &mut self.search {
            crate::text::pop_char(&mut st.query);
        }
    }

    /// Activate content search, closing any filename search (restoring the
    /// tree) and the comment list, and saving the tree's state.
    pub fn enter_content_search(&mut self)
        ensures
            content_search_entered(*old(self), *final(self)),
    {
        self.exit_search(false);
        self.exit_comment_list();
        let root = search_root_of(&self.model.entries);
        let saved = copy_entries(&self.model.entries);
        let query = String::new();
        assert(query@ =~= Seq::<char>::empty());
        self.content_search = Some(ContentSearchState {
            query,
            entries: Vec::new(),
            selected: 0,
            scroll_offset: 0,
            match_count: 0,
            searching: false,
            saved_entries: saved,
            saved_selected: self.model.selected,
            saved_scroll_offset: self.scroll_offset,
            root,
        });
    }

    /// Leave content search, restoring the tree's saved state.
    pub fn exit_content_search(&mut self)
        ensures
            content_search_left(*old(self), *final(self)),
    {
        if let Some(cs) = self.content_search.take() {
            self.model.entries = cs.saved_entries;
            self.model.selected = cs.saved_selected;
            self.scroll_offset = cs.saved_scroll_offset;
        }
    }

    /// Show content search results: the matches grouped under a header per
    /// file (its path below the search root), the first match selected, the
    /// list at the top. Nothing happens outside content search.
    pub fn apply_content_search_results(&mut self, results: Vec<ContentMatch>)
        ensures
            match old(self).content_search {
                Some(cs) => {
                    &&& final(self).content_search is Some
                    &&& {
                        let ncs = final(self).content_search->0;
                        &&& search_views(ncs.entries@) == grouped_matches(results@, cs.root@)
                        &&& ncs.match_count == results@.len()
                        &&& !ncs.searching
                        &&& ncs.selected == first_selectable(search_headers(ncs.entries@))
                        &&& ncs.scroll_offset == 0
                        &&& ncs.query == cs.query
                        &&& ncs.saved_entries == cs.saved_entries
                        &&& ncs.saved_selected == cs.saved_selected
                        &&& ncs.saved_scroll_offset == cs.saved_scroll_offset
                        &&& ncs.root == cs.root
                    }
                    &&& final(self).model == old(self).model
                    &&& final(self).scroll_offset == old(self).scroll_offset
                    &&& final(self).search == old(self).search
                    &&& final(self).visible_height == old(self).visible_height
                    &&& final(self).comment_list == old(self).comment_list
                },
                None => *final(self) == *old(self),
            },
    {
        if let Some(cs) = &mut self.content_search {
            let ghost root = cs.root@;
            let mut entries: Vec<ContentSearchEntry> = Vec::new();
            let mut k: usize = 0;
            while k < results.len()
                invariant
                    k <= results@.len(),
                    root == cs.root@,
                    search_views(entries@) == grouped_matches(results@.take(k as int), root),
                decreases results.len() - k,
            {
                let m = &results[k];
                proof {
                    let t = results@.take(k as int + 1);
                    assert(t.drop_last() =~= results@.take(k as int));
                    assert(t.last() == results@[k as int]);
                    if k > 0 {
                        assert(t[t.len() - 2] == results@[k - 1]);
                    }
                }
                let new_file = k == 0 || !crate::text::str_eq(results[k - 1].file.as_str(), m.file.as_str());
                if new_file {
                    let display_name = display_path(m.file.as_str(), cs.root.as_str());
                    let ghost before = search_views(entries@);
                    entries.push(ContentSearchEntry::Header { display_name });
                    proof {
                        assert(search_views(entries@) =~= before.push(SearchEntryView::Header(display_below(m.file@, root))));
                    }
                }
                let ghost before = search_views(entries@);
                entries.push(ContentSearchEntry::Match { file: m.file.clone(), line_number: m.line_number, text_preview: m.line_text.clone() });
                proof {
                    assert(search_views(entries@) =~= before.push(SearchEntryView::Match(m.file@, m.line_number, m.line_text@)));
                }
                k = k + 1;
            }
            proof {
                assert(results@.take(results@.len() as int) =~= results@);
            }
            let flags = search_header_flags(&entries);
            let first = first_unset(&flags);
            cs.searching = false;
            cs.match_count = results.len();
            cs.entries = entries;
            cs.selected = first;
            cs.scroll_offset = 0;
        }
    }
    /// Move the content search selection to the next (or previous) match,
    /// skipping headers, and scroll it into view; nothing happens when there
    /// is none in that direction.
    pub fn content_search_move(&mut self, down: bool)
        requires
            old(self).content_search is Some,
            old(self).content_search->0.selected <= old(self).content_search->0.entries@.len(),
            old(self).content_search->0.scroll_offset + old(self).visible_height + 1 <= usize::MAX,
        ensures
            *final(self) == content_search_moved(*old(self), down),
    {
        let height = if self.visible_height == 0 { 1 } else { self.visible_height };
        if let Some(cs) = &mut self.content_search {
            let flags = search_header_flags(&cs.entries);
            let found = if down { next_unset_index(&flags, cs.selected) } else { prev_unset_index(&flags, cs.selected) };
            if let Some(j) = found {
                cs.selected = j;
                if cs.selected < cs.scroll_offset {
                    cs.scroll_offset = cs.selected;
                } else if cs.selected >= cs.scroll_offset + height {
                    cs.scroll_offset = cs.selected - height + 1;
                }
            }
        }
    }

    /// Move the comment list selection to the next (or previous) comment,
    /// skipping headers, and scroll it into view; the comment moved to is
    /// previewed. Nothing happens when there is none in that direction.
    pub fn comment_list_move(&mut self, down: bool) -> (r: Action)
        requires
            old(self).comment_list is Some,
            old(self).comment_list->0.selected <= old(self).comment_list->0.entries@.len(),
            old(self).comment_list->0.scroll_offset + old(self).visible_height + 1 <= usize::MAX,
        ensures
            *final(self) == comment_list_moved(*old(self), down),
            r == comment_list_move_action(*old(self), down),
    {
        let height = if self.visible_height == 0 { 1 } else { self.visible_height };
        if let Some(cl) = &mut self.comment_list {
            let flags = comment_header_flags(&cl.entries);
            let found = if down { next_unset_index(&flags, cl.selected) } else { prev_unset_index(&flags, cl.selected) };
            if let Some(j) = found {
                proof {
                    let h = comment_headers(cl.entries@);
                    assert(!h[j as int]);
                }
                if let CommentListEntry::Comment { file, start_line, .. } = &cl.entries[j] {
                    let file = file.clone();
                    let line = *start_line;
                    cl.selected = j;
                    if cl.selected < cl.scroll_offset {
                        cl.scroll_offset = cl.selected;
                    } else if cl.selected >= cl.scroll_offset + height {
                        cl.scroll_offset = cl.selected - height + 1;
                    }
                    return Action::CommentFocused { file, line };
                }
            }
        }
        Action::NoAction
    }

    /// Move the tree selection by `delta` (clamped to the list) and report
    /// the file now under the cursor, if it is one.
    pub fn move_selection(&mut self, delta: isize) -> (r: Action)
        requires
            delta > isize::MIN,
            delta > 0 ==> old(self).model.selected + delta <= usize::MAX,
        ensures
            ({
                let len = old(self).model.entries@.len() as int;
                if len == 0 {
                    *final(self) == *old(self)
                } else {
                    let i = moved_index(old(self).model.selected as int, delta as int, len);
                    *final(self) == (FileTree { model: FileTreeModel { selected: i as usize, ..old(self).model }, ..*old(self) })
                }
            }),
            r == tree_move_action(*old(self), delta as int),
    {
        let len = self.model.entries.len();
        if len == 0 {
            return Action::NoAction;
        }
        let new_idx = if delta > 0 {
            let up = self.model.selected + (delta as usize);
            if up <= len - 1 { up } else { len - 1 }
        } else {
            let d = (-delta) as usize;
            if self.model.selected >= d { self.model.selected - d } else { 0 }
        };
        self.model.selected = new_idx;
        if new_idx < self.model.entries.len() && !self.model.entries[new_idx].is_directory {
            return Action::FileSelected(self.model.entries[new_idx].path.clone());
        }
        Action::NoAction
    }

    /// The parent directory entry of the selection: the nearest preceding
    /// directory one level shallower.
    pub fn find_parent_index(&self) -> (r: Option<usize>)
        ensures
            ({
                let s = self.model.entries@;
                let sel = self.model.selected as int;
                match r {
                    Some(i) => 0 < sel < s.len() && s[sel].depth > 0 && i < sel
                        && s[i as int].depth == s[sel].depth - 1 && s[i as int].is_directory
                        && forall|j: int| i < j < sel ==> !(s[j].depth == s[sel].depth - 1 && s[j].is_directory),
                    None => sel >= s.len() || s[sel].depth == 0
                        || forall|j: int| 0 <= j < sel ==> !(s[j].depth == s[sel].depth - 1 && s[j].is_directory),
                }
            }),
    {
        let sel = self.model.selected;
        if sel >= self.model.entries.len() {
            return None;
        }
        let depth = self.model.entries[sel].depth;
        if depth == 0 {
            return None;
        }
        let target = depth - 1;
        let mut i = sel;
        while i > 0
            invariant
                i <= sel < self.model.entries@.len(),
                sel == self.model.selected,
                self.model.entries@[sel as int].depth > 0,
                target == self.model.entries@[sel as int].depth - 1,
                forall|j: int| i <= j < sel ==> !(self.model.entries@[j].depth == target && self.model.entries@[j].is_directory),
            decreases i,
        {
            i = i - 1;
            if self.model.entries[i].depth == target && self.model.entries[i].is_directory {
                return Some(i);
            }
        }
        None
    }

    /// The root-level (depth 0) ancestor of the selection: the selection
    /// itself at depth 0, else the nearest preceding depth-0 entry.
    pub fn find_root_ancestor_index(&self) -> (r: Option<usize>)
        ensures
            ({
                let s = self.model.entries@;
                let sel = self.model.selected as int;
                match r {
                    Some(i) => sel < s.len() && i <= sel && s[i as int].depth == 0
                        && forall|j: int| i < j <= sel ==> s[j].depth != 0,
                    None => sel >= s.len() || forall|j: int| 0 <= j <= sel ==> s[j].depth != 0,
                }
            }),
    {
        let sel = self.model.selected;
        if sel >= self.model.entries.len() {
            return None;
        }
        if self.model.entries[sel].depth == 0 {
            return Some(sel);
        }
        let mut i = sel;
        while i > 0
            invariant
                i <= sel < self.model.entries@.len(),
                sel == self.model.selected,
                forall|j: int| i <= j <= sel ==> self.model.entries@[j].depth != 0,
            decreases i,
        {
            i = i - 1;
            if self.model.entries[i].depth == 0 {
                return Some(i);
            }
        }
        None
    }
    /// Fold the tree up to the root-level ancestor of the selection: collapse
    /// it when it is an expanded directory, select it, and scroll it into
    /// view. Nothing happens when there is no such ancestor.
    pub fn fold_to_root(&mut self)
        requires
            old(self).scroll_offset + old(self).visible_height <= usize::MAX,
        ensures
            folded_to_root(*old(self), *final(self)),
    {
        let ghost s = views(self.model.entries@);
        match self.find_root_ancestor_index() {
            Some(root_idx) => {
                proof {
                    lemma_root_ancestor(s, self.model.selected as int, root_idx as int);
                }
                self.model.selected = root_idx;
                if self.model.entries[root_idx].is_directory && self.model.entries[root_idx].is_expanded {
                    let none: Vec<TreeEntry> = Vec::new();
                    proof {
                        assert(views(none@) =~= Seq::<EntryView>::empty());
                    }
                    self.model.toggle_expand(none);
                }
                let vh = self.visible_height;
                self.ensure_visible(vh);
            },
            None => {
                proof {
                    if exists|i: int| is_root_ancestor(s, self.model.selected as int, i) {
                        let i = choose|i: int| is_root_ancestor(s, self.model.selected as int, i);
                        assert(s[i].depth == 0);
                    }
                }
            },
        }
    }

    /// The first collapsed directory at or after `from` that still lies in
    /// the subtree of entry `start`: the next one that expanding everything
    /// below `start` must scan and expand.
    pub fn next_collapsed_dir(&self, start: usize, from: usize) -> (r: Option<usize>)
        requires
            start < self.model.entries@.len(),
            start <= from,
        ensures
            ({
                let s = views(self.model.entries@);
                match r {
                    Some(i) => from <= i < s.len() && within_subtree(s, start as int, from as int, i as int)
                        && collapsed_dir(s[i as int])
                        && forall|k: int| from <= k < i ==> !collapsed_dir(#[trigger] s[k]),
                    None => forall|k: int| from <= k < s.len() && within_subtree(s, start as int, from as int, k)
                        ==> !collapsed_dir(#[trigger] s[k]),
                }
            }),
    {
        let ghost s = views(self.model.entries@);
        let start_depth = self.model.entries[start].depth;
        let mut i = from;
        while i < self.model.entries.len()
            invariant
                start <= from <= i,
                start < self.model.entries@.len(),
                s == views(self.model.entries@),
                start_depth == s[start as int].depth,
                i > from ==> within_subtree(s, start as int, from as int, i - 1),
                forall|k: int| from <= k < i ==> !collapsed_dir(#[trigger] s[k]),
            decreases self.model.entries.len() - i,
        {
            if i > start && self.model.entries[i].depth <= start_depth {
                proof {
                    assert forall|k: int| from <= k < s.len() && within_subtree(s, start as int, from as int, k)
                        implies !collapsed_dir(#[trigger] s[k]) by {
                        if k >= i {
                            assert(s[i as int].depth <= s[start as int].depth);
                        }
                    }
                }
                return None;
            }
            proof {
                assert(s[i as int].depth == self.model.entries@[i as int].depth);
                assert(within_subtree(s, start as int, from as int, i as int));
            }
            if self.model.entries[i].is_directory && !self.model.entries[i].is_expanded {
                return Some(i);
            }
            i = i + 1;
        }
        None
    }

    /// Expand (or collapse) entry `i` as the selection would be, inserting
    /// `children`, the scan of that directory, and keep the selection.
    pub fn expand_at(&mut self, i: usize, children: Vec<TreeEntry>)
        requires
            i < old(self).model.entries@.len(),
            old(self).model.entries@[i as int].depth < usize::MAX,
            old(self).model.entries@[i as int].is_directory && !old(self).model.entries@[i as int].is_expanded
                ==> crate::tree::all_at_depth(views(children@), (old(self).model.entries@[i as int].depth + 1) as usize),
        ensures
            views(final(self).model.entries@) == crate::tree::toggled(views(old(self).model.entries@), i as int,
                views(children@), old(self).model.git(), old(self).model.filter_changed),
            final(self).model.selected == old(self).model.selected,
            final(self).model.root_path() == old(self).model.root_path(),
            final(self).model.git() == old(self).model.git(),
            final(self).model.filter_changed == old(self).model.filter_changed,
            final(self).scroll_offset == old(self).scroll_offset,
            final(self).search == old(self).search,
            final(self).visible_height == old(self).visible_height,
            final(self).comment_list == old(self).comment_list,
            final(self).content_search == old(self).content_search,
    {
        let saved = self.model.selected;
        self.model.selected = i;
        self.model.toggle_expand(children);
        self.model.selected = saved;
    }
    /// Move the tree selection by `delta` and keep it in view, reporting the
    /// file now under the cursor.
    pub fn move_and_show(&mut self, delta: isize) -> (r: Action)
        requires
            delta == 1 || delta == -1,
            old(self).model.selected + 1 <= usize::MAX,
            old(self).scroll_offset + old(self).visible_height <= usize::MAX,
        ensures
            *final(self) == tree_moved(*old(self), delta as int),
            r == tree_move_action(*old(self), delta as int),
    {
        let action = self.move_selection(delta);
        let vh = self.visible_height;
        self.ensure_visible(vh);
        action
    }

    /// Handle a key while content search is open.
    pub fn handle_content_search_key(&mut self, key: &Key) -> (r: Action)
        requires
            old(self).content_search is Some,
            old(self).content_search->0.selected <= old(self).content_search->0.entries@.len(),
            old(self).content_search->0.scroll_offset + old(self).visible_height + 1 <= usize::MAX,
        ensures
            content_search_key_handled(*old(self), *key, *final(self), r),
    {
        match key.code {
            KeyCode::Esc => {
                self.exit_content_search();
                Action::NoAction
            },
            KeyCode::Enter => {
                if let Some(cs) = &self.content_search {
                    if cs.selected < cs.entries.len() {
                        if let ContentSearchEntry::Match { file, line_number, .. } = &cs.entries[cs.selected] {
                            return Action::CommentJumped { file: file.clone(), line: *line_number };
                        }
                    }
                }
                Action::NoAction
            },
            KeyCode::Backspace => {
                if let Some(cs) = &mut self.content_search {
                    crate::text::pop_char(&mut cs.query);
                }
                Action::ContentSearchRequested
            },
            KeyCode::Down => {
                self.content_search_move(true);
                Action::NoAction
            },
            KeyCode::Up => {
                self.content_search_move(false);
                Action::NoAction
            },
            KeyCode::Char(c) => {
                if let Some(cs) = &mut self.content_search {
                    crate::text::push_char(&mut cs.query, c);
                }
                Action::ContentSearchRequested
            },
            _ => Action::NoAction,
        }
    }

    /// Handle a key while the comment list is open.
    pub fn handle_comment_list_key(&mut self, key: &Key) -> (r: Action)
        requires
            old(self).comment_list is Some,
            old(self).comment_list->0.selected <= old(self).comment_list->0.entries@.len(),
            old(self).comment_list->0.scroll_offset + old(self).visible_height + 1 <= usize::MAX,
        ensures
            comment_list_key_handled(*old(self), *key, *final(self), r),
    {
        let down = key.char_plain('j') || key.code == KeyCode::Down;
        let up = key.char_plain('k') || key.code == KeyCode::Up;
        if down || up {
            let len = match &self.comment_list { Some(cl) => cl.entries.len(), None => 0 };
            if len == 0 {
                return Action::NoAction;
            }
            return self.comment_list_move(down);
        }
        if key.code == KeyCode::Enter {
            if let Some(cl) = &self.comment_list {
                if cl.selected < cl.entries.len() {
                    if let CommentListEntry::Comment { file, start_line, .. } = &cl.entries[cl.selected] {
                        return Action::CommentJumped { file: file.clone(), line: *start_line };
                    }
                }
            }
            return Action::NoAction;
        }
        if key.char_plain('x') || key.code == KeyCode::Delete || key.code == KeyCode::Backspace {
            if let Some(cl) = &self.comment_list {
                if cl.selected < cl.entries.len() {
                    if let CommentListEntry::Comment { file, start_line, end_line, .. } = &cl.entries[cl.selected] {
                        return Action::DeleteCommentAt { file: file.clone(), start_line: *start_line, end_line: *end_line };
                    }
                }
            }
            return Action::NoAction;
        }
        if key.char_plain('c') || key.code == KeyCode::Esc {
            self.exit_comment_list();
            return Action::NoAction;
        }
        if key.code == KeyCode::Tab {
            return Action::SwitchFocus;
        }
        if key.char_plain('q') {
            return Action::Quit;
        }
        Action::NoAction
    }

    /// Handle a key during filename search; the flag says whether the
    /// search must run again for the changed query.
    pub fn handle_search_key(&mut self, key: &Key) -> (r: (Action, bool))
        requires
            old(self).search is Some,
            old(self).model.selected + 1 <= usize::MAX,
            old(self).scroll_offset + old(self).visible_height <= usize::MAX,
        ensures
            search_key_handled(*old(self), *key, *final(self), r.0, r.1),
    {
        match key.code {
            KeyCode::Enter => {
                let action = if self.model.selected < self.model.entries.len()
                    && !self.model.entries[self.model.selected].is_directory {
                    Action::FileOpened(self.model.entries[self.model.selected].path.clone())
                } else {
                    Action::NoAction
                };
                self.exit_search(true);
                (action, false)
            },
            KeyCode::Esc => {
                self.exit_search(false);
                (Action::NoAction, false)
            },
            KeyCode::Char(c) => {
                self.search_push(c);
                (Action::NoAction, true)
            },
            KeyCode::Backspace => {
                self.search_pop();
                (Action::NoAction, true)
            },
            KeyCode::Down => (self.move_and_show(1), false),
            KeyCode::Up => (self.move_and_show(-1), false),
            _ => (Action::NoAction, false),
        }
    }
    /// Handle a key in the plain tree view. `expand_double_tap` and
    /// `collapse_double_tap` say whether the key comes soon after the last
    /// expand or collapse; the response says what the application must do
    /// next and what becomes of those timers.
    pub fn handle_tree_key(&mut self, key: &Key, expand_double_tap: bool, collapse_double_tap: bool) -> (r: TreeResponse)
        requires
            old(self).model.selected + 1 <= usize::MAX,
            old(self).scroll_offset + old(self).visible_height <= usize::MAX,
            forall|j: int| 0 <= j < old(self).model.entries@.len() ==> (#[trigger] old(self).model.entries@[j]).depth < usize::MAX,
        ensures
            tree_key_handled(*old(self), *key, expand_double_tap, collapse_double_tap, *final(self), r),
    {
        let ghost s = views(self.model.entries@);
        let keep = TapTimer::Keep;
        if key.char_plain('j') || key.code == KeyCode::Down {
            let action = self.move_and_show(1);
            return TreeResponse { action, command: TreeCommand::Nothing, expand_timer: keep, collapse_timer: keep };
        }
        if key.char_plain('k') || key.code == KeyCode::Up {
            let action = self.move_and_show(-1);
            return TreeResponse { action, command: TreeCommand::Nothing, expand_timer: keep, collapse_timer: keep };
        }
        let sel = self.model.selected;
        let has_sel = sel < self.model.entries.len();
        if key.char_plain('l') || key.code == KeyCode::Right {
            if has_sel && self.model.entries[sel].is_directory {
                if !self.model.entries[sel].is_expanded {
                    return TreeResponse { action: Action::NoAction, command: TreeCommand::ExpandSelected, expand_timer: TapTimer::Start, collapse_timer: keep };
                } else if expand_double_tap {
                    return TreeResponse { action: Action::NoAction, command: TreeCommand::ExpandAllBelowSelected, expand_timer: TapTimer::Clear, collapse_timer: keep };
                } else {
                    return TreeResponse { action: Action::NoAction, command: TreeCommand::Nothing, expand_timer: TapTimer::Start, collapse_timer: keep };
                }
            }
            return TreeResponse { action: Action::NoAction, command: TreeCommand::Nothing, expand_timer: keep, collapse_timer: keep };
        }
        if key.char_plain('h') || key.code == KeyCode::Left {
            if !has_sel {
                return TreeResponse { action: Action::NoAction, command: TreeCommand::Nothing, expand_timer: keep, collapse_timer: keep };
            }
            if self.model.entries[sel].is_directory && self.model.entries[sel].is_expanded {
                let none: Vec<TreeEntry> = Vec::new();
                proof {
                    assert(views(none@) =~= Seq::<EntryView>::empty());
                }
                self.model.toggle_expand(none);
                return TreeResponse { action: Action::NoAction, command: TreeCommand::Nothing, expand_timer: keep, collapse_timer: TapTimer::Start };
            }
            if collapse_double_tap {
                self.fold_to_root();
                return TreeResponse { action: Action::NoAction, command: TreeCommand::Nothing, expand_timer: keep, collapse_timer: TapTimer::Clear };
            }
            match self.find_parent_index() {
                Some(p) => {
                    proof {
                        lemma_parent_row(s, sel as int, p as int);
                    }
                    self.model.selected = p;
                    let vh = self.visible_height;
                    if self.model.entries[p].is_expanded {
                        let none: Vec<TreeEntry> = Vec::new();
                        proof {
                            assert(views(none@) =~= Seq::<EntryView>::empty());
                        }
                        self.model.toggle_expand(none);
                        self.ensure_visible(vh);
                        return TreeResponse { action: Action::NoAction, command: TreeCommand::Nothing, expand_timer: keep, collapse_timer: TapTimer::Start };
                    } else {
                        self.ensure_visible(vh);
                        return TreeResponse { action: Action::NoAction, command: TreeCommand::ExpandSelected, expand_timer: keep, collapse_timer: TapTimer::Start };
                    }
                },
                None => {
                    proof {
                        if exists|j: int| is_parent_row(s, sel as int, j) {
                            let j = choose|j: int| is_parent_row(s, sel as int, j);
                            assert(s[j].depth == s[sel as int].depth - 1 && s[j].is_directory);
                        }
                    }
                    return TreeResponse { action: Action::NoAction, command: TreeCommand::Nothing, expand_timer: keep, collapse_timer: keep };
                },
            }
        }
        if key.code == KeyCode::Enter {
            let action = if has_sel && !self.model.entries[sel].is_directory {
                Action::FileOpened(self.model.entries[sel].path.clone())
            } else {
                Action::NoAction
            };
            return TreeResponse { action, command: TreeCommand::Nothing, expand_timer: keep, collapse_timer: keep };
        }
        if key.char_plain('/') {
            self.enter_search();
            return TreeResponse { action: Action::NoAction, command: TreeCommand::Nothing, expand_timer: keep, collapse_timer: keep };
        }
        if key.char_plain('g') {
            return TreeResponse { action: Action::NoAction, command: TreeCommand::ToggleFilter, expand_timer: keep, collapse_timer: keep };
        }
        let action = if key.char_plain('c') {
            Action::EnterCommentList
        } else if key.code == KeyCode::Tab {
            Action::SwitchFocus
        } else if key.char_plain('q') {
            Action::Quit
        } else {
            Action::NoAction
        };
        TreeResponse { action, command: TreeCommand::Nothing, expand_timer: keep, collapse_timer: keep }
    }
    /// Whether key handling fits the machine's limits (see [`tree_key_fits`]).
    pub fn key_in_limits(&self) -> (r: bool)
        ensures
            r == tree_key_fits(*self),
    {
        let vh = self.visible_height;
        let cs_ok = match &self.content_search {
            Some(cs) => cs.selected <= cs.entries.len() && vh < usize::MAX && cs.scroll_offset <= usize::MAX - vh - 1,
            None => true,
        };
        let cl_ok = match &self.comment_list {
            Some(cl) => cl.selected <= cl.entries.len() && vh < usize::MAX && cl.scroll_offset <= usize::MAX - vh - 1,
            None => true,
        };
        if !cs_ok || !cl_ok || self.model.selected == usize::MAX || self.scroll_offset > usize::MAX - vh {
            return false;
        }
        let mut i: usize = 0;
        while i < self.model.entries.len()
            invariant
                i <= self.model.entries@.len(),
                forall|j: int| 0 <= j < i ==> (#[trigger] self.model.entries@[j]).depth < usize::MAX,
            decreases self.model.entries.len() - i,
        {
            if self.model.entries[i].depth == usize::MAX {
                return false;
            }
            i = i + 1;
        }
        true
    }

    /// Handle a key in whatever the pane shows: content search, the comment
    /// list, filename search, or the plain tree.
    pub fn handle_key(&mut self, key: &Key, expand_double_tap: bool, collapse_double_tap: bool) -> (r: TreeResponse)
        requires
            tree_key_fits(*old(self)),
        ensures
            tree_key_result(*old(self), *key, expand_double_tap, collapse_double_tap, *final(self), r),
    {
        let keep = TapTimer::Keep;
        if self.content_search.is_some() {
            let action = self.handle_content_search_key(key);
            return TreeResponse { action, command: TreeCommand::Nothing, expand_timer: keep, collapse_timer: keep };
        }
        if self.comment_list.is_some() {
            let action = self.handle_comment_list_key(key);
            return TreeResponse { action, command: TreeCommand::Nothing, expand_timer: keep, collapse_timer: keep };
        }
        if self.search.is_some() {
            let (action, run) = self.handle_search_key(key);
            let command = if run { TreeCommand::RunFileSearch } else { TreeCommand::Nothing };
            return TreeResponse { action, command, expand_timer: keep, collapse_timer: keep };
        }
        self.handle_tree_key(key, expand_double_tap, collapse_double_tap)
    }

    /// Toggle the changed-files filter with `root_scan`, the new scan of the
    /// root, then go back to the top and keep the selection in view.
    pub fn apply_filter_toggle(&mut self, root_scan: Vec<TreeEntry>)
        requires
            crate::tree::root_listing(views(root_scan@)),
            old(self).visible_height <= usize::MAX,
        ensures
            old(self).model.git() is None ==> views(final(self).model.entries@) == views(old(self).model.entries@)
                && final(self).model.selected == old(self).model.selected
                && final(self).model.filter_changed == old(self).model.filter_changed,
            old(self).model.git() is Some ==> {
                &&& final(self).model.filter_changed == !old(self).model.filter_changed
                &&& views(final(self).model.entries@) == prepare_spec(crate::tree::without_git(views(root_scan@)), old(self).model.git(),
                        old(self).model.root_path(), 0, !old(self).model.filter_changed)
                &&& final(self).model.selected == (if old(self).model.selected < old(self).model.entries@.len()
                        && crate::tree::index_of_path(views(final(self).model.entries@), old(self).model.entries@[old(self).model.selected as int].path@) >= 0 {
                        crate::tree::index_of_path(views(final(self).model.entries@), old(self).model.entries@[old(self).model.selected as int].path@)
                    } else {
                        0
                    })
                &&& forall|i: int| 0 <= i < final(self).model.entries@.len() ==> crate::tree::shown_name_ok(#[trigger] views(final(self).model.entries@)[i], old(self).model.git())
            },
            final(self).model.root_path() == old(self).model.root_path(),
            final(self).model.git() == old(self).model.git(),
            final(self).scroll_offset == (if old(self).visible_height == 0 {
                0
            } else {
                visible_offset(0, final(self).model.selected as int, old(self).visible_height as int)
            }),
            final(self).search == old(self).search,
            final(self).visible_height == old(self).visible_height,
            final(self).comment_list == old(self).comment_list,
            final(self).content_search == old(self).content_search,
    {
        self.model.toggle_filter(root_scan);
        self.scroll_offset = 0;
        let vh = self.visible_height;
        self.ensure_visible(vh);
    }
}

} // verus!
