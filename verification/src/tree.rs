//! The file tree model: a flat list of entries reflecting which directories
//! are expanded, with git annotations, selection and filtering.
use vstd::prelude::*;
use vstd::string::StrSliceExecFns;
use crate::git_status::{FileStatus, GitStatus, changed_dirs_of};
use crate::paths::parent_of;
use crate::text::str_eq;
use crate::paths::{file_name_of, last_slash_index, lemma_last_slash_index};
use crate::text::chars_of;
use crate::paths::file_name;

verus! {

/// A single entry in the file tree (file or directory).
#[derive(Debug, Clone, PartialEq)]
pub struct TreeEntry {
    pub path: String,
    pub depth: usize,
    pub is_directory: bool,
    pub is_expanded: bool,
    /// Git status for this file (None if clean or not in a git repo).
    pub git_status: Option<FileStatus>,
    /// Whether this entry is ignored by .gitignore.
    pub is_gitignored: bool,
}

/// What a tree entry holds, with its path as characters.
pub ghost struct EntryView {
    pub path: Seq<char>,
    pub depth: usize,
    pub is_directory: bool,
    pub is_expanded: bool,
    pub git_status: Option<FileStatus>,
    pub is_gitignored: bool,
}

impl View for TreeEntry {
    type V = EntryView;

    open spec fn view(&self) -> EntryView {
        EntryView {
            path: self.path@,
            depth: self.depth,
            is_directory: self.is_directory,
            is_expanded: self.is_expanded,
            git_status: self.git_status,
            is_gitignored: self.is_gitignored,
        }
    }
}

/// The views of a list of entries.
pub open spec fn views(s: Seq<TreeEntry>) -> Seq<EntryView> {
    s.map_values(|e: TreeEntry| e@)
}

/// The display name of an entry: the last component of its path.
pub open spec fn name_of(e: EntryView) -> Seq<char> {
    file_name_of(e.path)
}

impl TreeEntry {
    pub fn file(path: String, depth: usize) -> (e: Self)
        ensures
            e.path == path,
            e.depth == depth,
            !e.is_directory,
            !e.is_expanded,
            e.git_status is None,
            !e.is_gitignored,
    {
        TreeEntry { path, depth, is_directory: false, is_expanded: false, git_status: None, is_gitignored: false }
    }

    pub fn directory(path: String, depth: usize) -> (e: Self)
        ensures
            e.path == path,
            e.depth == depth,
            e.is_directory,
            !e.is_expanded,
            e.git_status is None,
            !e.is_gitignored,
    {
        TreeEntry { path, depth, is_directory: true, is_expanded: false, git_status: None, is_gitignored: false }
    }

    /// Display name (file/directory name only, not full path).
    pub fn name(&self) -> (r: &str)
        ensures
            r@ == name_of(self@),
    {
        let s = self.path.as_str();
        let v = chars_of(s);
        let n = v.len();
        let mut i = n;
        proof {
            lemma_last_slash_index(v@);
        }
        while i > 0 && v[i - 1] != '/'
            invariant
                i <= n,
                n == v@.len(),
                v@ == self.path@,
                forall|j: int| i <= j < n ==> v@[j] != '/',
            decreases i,
        {
            i = i - 1;
        }
        proof {
            lemma_last_slash_index(v@);
            let k = last_slash_index(v@);
            if i > 0 {
                if k < i - 1 { assert(v@[i - 1] != '/'); }
                if k > i - 1 { assert(v@[k] == '/'); }
                assert(k == i - 1);
            } else {
                if k >= 0 { assert(v@[k] == '/'); }
            }
            assert(self.path@.skip(i as int) =~= self.path@.subrange(i as int, n as int));
        }
        s.substring_char(i, n)
    }
}

/// Unicode lowercase of a string.
pub uninterp spec fn lowercase(s: Seq<char>) -> Seq<char>;

/// `c` with an ASCII capital letter turned into its small letter.
pub open spec fn ascii_lower(c: char) -> char {
    if 'A' <= c && c <= 'Z' { ((c as u32) + 32) as char } else { c }
}

/// Whether every character of `s` is ASCII.
pub open spec fn all_ascii(s: Seq<char>) -> bool {
    forall|i: int| 0 <= i < s.len() ==> (#[trigger] s[i] as u32) < 128
}

/// Lowercases a string.
///
/// Trusted: calls `str::to_lowercase`, whose result depends on the string
/// alone; the contract names that result and states what std documents for
/// ASCII text: `A`-`Z` become `a`-`z` and every other character stays.
#[verifier::external_body]
pub(crate) fn to_lowercase(s: &str) -> (r: String)
    ensures
        r@ == lowercase(s@),
        all_ascii(s@) ==> r@ == s@.map_values(|c: char| ascii_lower(c)),
{
    s.to_lowercase()
}

/// Lexicographic order on strings by code point (the order of `String`).
pub open spec fn lex_lt(a: Seq<char>, b: Seq<char>) -> bool
    decreases a.len(),
{
    if a.len() == 0 {
        b.len() > 0
    } else if b.len() == 0 {
        false
    } else if a[0] != b[0] {
        a[0] < b[0]
    } else {
        lex_lt(a.drop_first(), b.drop_first())
    }
}

pub proof fn lemma_lex_irreflexive(a: Seq<char>)
    ensures
        !lex_lt(a, a),
    decreases a.len(),
{
    if a.len() > 0 {
        lemma_lex_irreflexive(a.drop_first());
    }
}

pub proof fn lemma_lex_transitive(a: Seq<char>, b: Seq<char>, c: Seq<char>)
    requires
        lex_lt(a, b),
        lex_lt(b, c),
    ensures
        lex_lt(a, c),
    decreases a.len(),
{
    if a.len() > 0 && b.len() > 0 && c.len() > 0 {
        vstd::utf8::char_u32_cast(a[0], a[0] as u32);
        vstd::utf8::char_u32_cast(b[0], b[0] as u32);
        vstd::utf8::char_u32_cast(c[0], c[0] as u32);
        if a[0] == b[0] && b[0] == c[0] {
            lemma_lex_transitive(a.drop_first(), b.drop_first(), c.drop_first());
        }
    }
}

pub proof fn lemma_lex_total(a: Seq<char>, b: Seq<char>)
    ensures
        lex_lt(a, b) || lex_lt(b, a) || a == b,
    decreases a.len(),
{
    if a.len() > 0 && b.len() > 0 {
        vstd::utf8::char_u32_cast(a[0], a[0] as u32);
        vstd::utf8::char_u32_cast(b[0], b[0] as u32);
        if a[0] == b[0] {
            lemma_lex_total(a.drop_first(), b.drop_first());
            if a.drop_first() == b.drop_first() {
                assert(a =~= seq![a[0]] + a.drop_first());
                assert(b =~= seq![b[0]] + b.drop_first());
            }
        }
    } else if a.len() == 0 && b.len() == 0 {
        assert(a =~= b);
    }
}

/// The sort key of an entry: directories first, then the lowercased name.
pub open spec fn sort_key(e: EntryView) -> (int, Seq<char>) {
    (if e.is_directory { 0int } else { 1int }, lowercase(name_of(e)))
}

/// Strict order on sort keys.
pub open spec fn key_lt(a: (int, Seq<char>), b: (int, Seq<char>)) -> bool {
    a.0 < b.0 || (a.0 == b.0 && lex_lt(a.1, b.1))
}

/// Entry `a` sorts strictly before entry `b`.
pub open spec fn entry_lt(a: EntryView, b: EntryView) -> bool {
    key_lt(sort_key(a), sort_key(b))
}

proof fn lemma_key_order(a: (int, Seq<char>), b: (int, Seq<char>), c: (int, Seq<char>))
    ensures
        !key_lt(a, a),
        key_lt(a, b) && key_lt(b, c) ==> key_lt(a, c),
        key_lt(a, b) || key_lt(b, a) || a == b,
{
    lemma_lex_irreflexive(a.1);
    if key_lt(a, b) && key_lt(b, c) && a.0 == b.0 && b.0 == c.0 {
        lemma_lex_transitive(a.1, b.1, c.1);
    }
    lemma_lex_total(a.1, b.1);
}

/// Entries in `s` are in sort order (stable order allows equal keys in any order).
pub open spec fn sorted_entries(s: Seq<EntryView>) -> bool {
    forall|i: int, j: int| 0 <= i < j < s.len() ==> !entry_lt(s[j], s[i])
}

/// Number of entries of `s` that do not sort after `x`.
pub open spec fn count_not_after(s: Seq<EntryView>, x: EntryView) -> nat
    decreases s.len(),
{
    if s.len() == 0 {
        0
    } else {
        count_not_after(s.drop_last(), x) + if entry_lt(x, s.last()) { 0nat } else { 1nat }
    }
}

/// Insert `x` into the sorted `s` after every entry that does not sort after it.
pub open spec fn insert_entry(s: Seq<EntryView>, x: EntryView) -> Seq<EntryView> {
    let p = count_not_after(s, x) as int;
    s.take(p) + seq![x] + s.skip(p)
}

/// Stable sort: directories first, then by case-insensitive name.
pub open spec fn sort_spec(s: Seq<EntryView>) -> Seq<EntryView>
    decreases s.len(),
{
    if s.len() == 0 {
        s
    } else {
        insert_entry(sort_spec(s.drop_last()), s.last())
    }
}

proof fn lemma_count_split(s: Seq<EntryView>, x: EntryView, p: int)
    requires
        0 <= p <= s.len(),
        forall|j: int| 0 <= j < p ==> !entry_lt(x, s[j]),
        forall|j: int| p <= j < s.len() ==> entry_lt(x, s[j]),
    ensures
        count_not_after(s, x) == p,
    decreases s.len(),
{
    if s.len() > 0 {
        if p == s.len() {
            lemma_count_split(s.drop_last(), x, p - 1);
        } else {
            lemma_count_split(s.drop_last(), x, p);
        }
    }
}

/// `a` comes before `b` by sort key, computed from precomputed keys.
fn key_less(ad: bool, an: &Vec<char>, bd: bool, bn: &Vec<char>) -> (r: bool)
    ensures
        r == key_lt((if ad { 0int } else { 1int }, an@), (if bd { 0int } else { 1int }, bn@)),
{
    if ad && !bd {
        return true;
    }
    if ad != bd {
        return false;
    }
    let mut i: usize = 0;
    assert(an@.skip(0) =~= an@);
    assert(bn@.skip(0) =~= bn@);
    while i < an.len() && i < bn.len()
        invariant
            ad == bd,
            i <= an@.len(),
            i <= bn@.len(),
            lex_lt(an@, bn@) == lex_lt(an@.skip(i as int), bn@.skip(i as int)),
        decreases an.len() - i,
    {
        proof {
            assert(an@.skip(i as int)[0] == an@[i as int]);
            assert(bn@.skip(i as int)[0] == bn@[i as int]);
            assert(an@.skip(i as int).drop_first() =~= an@.skip(i + 1));
            assert(bn@.skip(i as int).drop_first() =~= bn@.skip(i + 1));
        }
        if an[i] != bn[i] {
            proof {
                let x = an@.skip(i as int);
                let y = bn@.skip(i as int);
                assert(x.len() > 0 && y.len() > 0);
                assert(x[0] != y[0]);
                assert(lex_lt(x, y) == (x[0] < y[0]));
            }
            let res = an[i] < bn[i];
            assert(res == (an@.skip(i as int)[0] < bn@.skip(i as int)[0]));
            assert(res == lex_lt(an@, bn@));
            return res;
        }
        i = i + 1;
    }
    proof {
        assert(an@.skip(i as int).len() == an@.len() - i);
        assert(bn@.skip(i as int).len() == bn@.len() - i);
    }
    i == an.len() && i < bn.len()
}

/// The lowercased name of an entry as characters.
fn lower_name(e: &TreeEntry) -> (r: Vec<char>)
    ensures
        r@ == lowercase(name_of(e@)),
{
    let l = to_lowercase(e.name());
    chars_of(l.as_str())
}

/// Sort entries: directories first, then files. Alphabetical (case-insensitive)
/// within each group; entries with equal keys keep their order.
pub fn sort_entries(entries: &mut Vec<TreeEntry>)
    ensures
        views(final(entries)@) == sort_spec(views(old(entries)@)),
        sorted_entries(views(final(entries)@)),
{
    let mut input: Vec<TreeEntry> = Vec::new();
    std::mem::swap(&mut input, entries);
    let ghost ins = views(input@);
    let ghost raw = input@;
    let mut r: Vec<TreeEntry> = Vec::new();
    let mut rd: Vec<bool> = Vec::new();
    let mut rn: Vec<Vec<char>> = Vec::new();
    for e in it: input.into_iter()
        invariant
            ins == views(old(entries)@),
            raw == old(entries)@,
            it.seq() == raw,
            views(r@) == sort_spec(ins.take(it.index() as int)),
            sorted_entries(views(r@)),
            rd@.len() == r@.len(),
            rn@.len() == r@.len(),
            forall|k: int| 0 <= k < r@.len() ==> sort_key(r@[k]@) == (if rd@[k] { 0int } else { 1int }, #[trigger] rn@[k]@),
    {
        let ghost i = it.index() as int;
        proof {
            let t = ins.take(i + 1);
            assert(t.drop_last() =~= ins.take(i));
            assert(raw[i] == e);
            assert(t.last() == e@);
        }
        let d = e.is_directory;
        let nm = lower_name(&e);
        let mut p: usize = 0;
        while p < r.len() && !key_less(d, &nm, rd[p], &rn[p])
            invariant
                p <= r@.len(),
                rd@.len() == r@.len(),
                rn@.len() == r@.len(),
                forall|k: int| 0 <= k < r@.len() ==> sort_key(r@[k]@) == (if rd@[k] { 0int } else { 1int }, #[trigger] rn@[k]@),
                sort_key(e@) == (if d { 0int } else { 1int }, nm@),
                forall|j: int| 0 <= j < p ==> !entry_lt(e@, r@[j]@),
            decreases r.len() - p,
        {
            proof {
                assert(sort_key(r@[p as int]@) == (if rd@[p as int] { 0int } else { 1int }, rn@[p as int]@));
            }
            p = p + 1;
        }
        let ghost old_r = r@;
        let ghost rs = views(old_r);
        let ghost ev = e@;
        proof {
            if p < rs.len() {
                assert(sort_key(old_r[p as int]@) == (if rd@[p as int] { 0int } else { 1int }, rn@[p as int]@));
                assert(entry_lt(ev, rs[p as int]));
            }
            assert forall|j: int| p <= j < rs.len() implies entry_lt(ev, rs[j]) by {
                if j > p {
                    lemma_key_order(sort_key(ev), sort_key(rs[p as int]), sort_key(rs[j]));
                    lemma_key_order(sort_key(rs[p as int]), sort_key(rs[j]), sort_key(ev));
                    lemma_key_order(sort_key(rs[j]), sort_key(rs[p as int]), sort_key(ev));
                    assert(!entry_lt(rs[j], rs[p as int]));
                }
            }
            assert forall|j: int| 0 <= j < p implies !entry_lt(ev, rs[j]) by {
                assert(rs[j] == old_r[j]@);
            }
            lemma_count_split(rs, ev, p as int);
        }
        r.insert(p, e);
        rd.insert(p, d);
        rn.insert(p, nm);
        proof {
            assert(views(r@) =~= rs.take(p as int) + seq![ev] + rs.skip(p as int));
            assert(views(r@) =~= insert_entry(rs, ev));
            assert forall|k: int| 0 <= k < r@.len() implies sort_key(r@[k]@) == (if rd@[k] { 0int } else { 1int }, #[trigger] rn@[k]@) by {
                if k < p {
                } else if k == p {
                } else {
                    assert(r@[k] == old_r[k - 1]);
                }
            }
            let vr = views(r@);
            assert forall|a: int, b: int| 0 <= a < b < vr.len() implies !entry_lt(vr[b], vr[a]) by {
                if b < p {
                    assert(vr[a] == rs[a] && vr[b] == rs[b]);
                } else if a < p && b == p {
                    assert(vr[a] == rs[a]);
                    lemma_key_order(sort_key(ev), sort_key(vr[a]), sort_key(ev));
                } else if a < p {
                    assert(vr[a] == rs[a] && vr[b] == rs[b - 1]);
                } else if a == p {
                    assert(vr[b] == rs[b - 1]);
                    lemma_key_order(sort_key(ev), sort_key(vr[b]), sort_key(ev));
                } else {
                    assert(vr[a] == rs[a - 1] && vr[b] == rs[b - 1]);
                }
            }
        }
    }
    proof {
        assert(ins.take(ins.len() as int) =~= ins);
    }
    *entries = r;
}

/// The entry with its git status replaced.
pub open spec fn with_git_status(e: EntryView, st: Option<FileStatus>) -> EntryView {
    EntryView { git_status: st, ..e }
}

/// The status a map records for a path.
pub open spec fn lookup(m: Map<Seq<char>, FileStatus>, p: Seq<char>) -> Option<FileStatus> {
    if m.dom().contains(p) { Some(m[p]) } else { None }
}

/// Files get the status recorded for their path; directories are unchanged.
pub open spec fn annotated(e: EntryView, m: Map<Seq<char>, FileStatus>) -> EntryView {
    if e.is_directory { e } else { with_git_status(e, lookup(m, e.path)) }
}

pub open spec fn annotate_spec(s: Seq<EntryView>, m: Map<Seq<char>, FileStatus>) -> Seq<EntryView> {
    s.map_values(|e: EntryView| annotated(e, m))
}

/// Kept by the changed-files filter: directories containing changes, files with a status.
pub open spec fn keep_changed(m: Map<Seq<char>, FileStatus>) -> spec_fn(EntryView) -> bool {
    |e: EntryView| if e.is_directory { changed_dirs_of(m).contains(e.path) } else { e.git_status is Some }
}

pub open spec fn filter_spec(s: Seq<EntryView>, m: Map<Seq<char>, FileStatus>) -> Seq<EntryView> {
    s.filter(keep_changed(m))
}

/// The virtual entry of a deleted file.
pub open spec fn deleted_entry(p: Seq<char>, depth: usize) -> EntryView {
    EntryView { path: p, depth, is_directory: false, is_expanded: false, git_status: Some(FileStatus::Deleted), is_gitignored: false }
}

/// Some entry of `s` has path `p`.
pub open spec fn has_path(s: Seq<EntryView>, p: Seq<char>) -> bool {
    exists|i: int| 0 <= i < s.len() && (#[trigger] s[i]).path == p
}

/// The deleted files (of `deleted`, in order) that belong in directory `dir`
/// and are not already among `existing`.
pub open spec fn injected(existing: Seq<EntryView>, deleted: Seq<Seq<char>>, dir: Seq<char>, depth: usize) -> Seq<EntryView>
    decreases deleted.len(),
{
    if deleted.len() == 0 {
        Seq::empty()
    } else {
        let rest = injected(existing, deleted.drop_last(), dir, depth);
        let p = deleted.last();
        if parent_of(p) == Some(dir) && !has_path(existing, p) {
            rest.push(deleted_entry(p, depth))
        } else {
            rest
        }
    }
}

/// Entries after injecting the deleted files of `dir`.
pub open spec fn inject_spec(s: Seq<EntryView>, g: GitStatus, dir: Seq<char>, depth: usize) -> Seq<EntryView> {
    s + injected(s, g.paths_with(FileStatus::Deleted), dir, depth)
}

/// The shared pipeline for a freshly scanned directory listing: inject
/// deleted files, sort, annotate, and optionally keep only changed entries.
pub open spec fn prepare_spec(s: Seq<EntryView>, gs: Option<GitStatus>, dir: Seq<char>, depth: usize, filter: bool) -> Seq<EntryView> {
    match gs {
        None => sort_spec(s),
        Some(g) => {
            let a = annotate_spec(sort_spec(inject_spec(s, g, dir, depth)), g.statuses());
            if filter { filter_spec(a, g.statuses()) } else { a }
        },
    }
}

/// An entry of the root level: at depth 0 and collapsed.
pub open spec fn at_root(e: EntryView) -> bool {
    e.depth == 0 && !e.is_expanded
}

/// A listing of the root directory as the tree takes it: every entry at the
/// root level.
pub open spec fn root_listing(s: Seq<EntryView>) -> bool {
    forall|i: int| 0 <= i < s.len() ==> at_root(#[trigger] s[i])
}

/// Whether an entry is the repository's own `.git` directory, which the tree
/// never shows.
pub open spec fn is_git_dir(e: EntryView) -> bool {
    name_of(e) == ".git"@
}

/// A directory listing without `.git`.
pub open spec fn without_git(s: Seq<EntryView>) -> Seq<EntryView> {
    s.filter(|e: EntryView| !is_git_dir(e))
}

/// An entry the tree may show: not named `.git`, unless git itself reports a
/// deleted file of that name (deleted files are shown from the status).
pub open spec fn shown_name_ok(e: EntryView, gs: Option<GitStatus>) -> bool {
    !is_git_dir(e) || (gs matches Some(g) && g.paths_with(FileStatus::Deleted).contains(e.path))
}

/// Drops `.git` from a directory listing, keeping the order of the rest.
pub fn drop_git_entries(scan: Vec<TreeEntry>) -> (r: Vec<TreeEntry>)
    ensures
        views(r@) == without_git(views(scan@)),
{
    let ghost sv = views(scan@);
    let mut r: Vec<TreeEntry> = Vec::new();
    for e in it: scan.into_iter()
        invariant
            it.seq() == scan@,
            sv == views(scan@),
            views(r@) == without_git(sv.take(it.index() as int)),
    {
        let ghost i = it.index() as int;
        assert(scan@[i] == e);
        proof {
            assert(sv.take(i + 1) =~= sv.take(i).push(e@));
            sv.take(i).lemma_filter_push(e@, |x: EntryView| !is_git_dir(x));
        }
        let keep = !str_eq(e.name(), ".git");
        let ghost before = r@;
        if keep {
            r.push(e);
            assert(views(r@) =~= views(before).push(e@));
        }
    }
    assert(sv.take(sv.len() as int) =~= sv);
    r
}

/// Sorting keeps any property that every entry has.
proof fn lemma_sort_keeps(s: Seq<EntryView>, p: spec_fn(EntryView) -> bool)
    requires
        forall|i: int| 0 <= i < s.len() ==> #[trigger] p(s[i]),
    ensures
        forall|i: int| 0 <= i < sort_spec(s).len() ==> #[trigger] p(sort_spec(s)[i]),
        sort_spec(s).len() == s.len(),
    decreases s.len(),
{
    if s.len() > 0 {
        let d = s.drop_last();
        let x = s.last();
        assert forall|i: int| 0 <= i < d.len() implies #[trigger] p(d[i]) by {
            assert(d[i] == s[i]);
        }
        lemma_sort_keeps(d, p);
        let t = sort_spec(d);
        lemma_count_not_after_bound(t, x);
        let q = count_not_after(t, x) as int;
        assert(insert_entry(t, x) =~= t.insert(q, x));
        assert(p(s[s.len() - 1]));
        assert forall|i: int| 0 <= i < sort_spec(s).len() implies #[trigger] p(sort_spec(s)[i]) by {
            if i < q {
                assert(sort_spec(s)[i] == t[i]);
            } else if i > q {
                assert(sort_spec(s)[i] == t[i - 1]);
            }
        }
    }
}

/// The deleted entries injected for a directory stand for paths that git
/// reports deleted.
proof fn lemma_injected_deleted(existing: Seq<EntryView>, deleted: Seq<Seq<char>>, dir: Seq<char>, depth: usize)
    ensures
        forall|i: int| 0 <= i < injected(existing, deleted, dir, depth).len()
            ==> deleted.contains(#[trigger] injected(existing, deleted, dir, depth)[i].path),
    decreases deleted.len(),
{
    if deleted.len() > 0 {
        lemma_injected_deleted(existing, deleted.drop_last(), dir, depth);
        let rest = injected(existing, deleted.drop_last(), dir, depth);
        let all = injected(existing, deleted, dir, depth);
        assert forall|i: int| 0 <= i < all.len() implies deleted.contains(#[trigger] all[i].path) by {
            if i < rest.len() {
                assert(all[i] == rest[i]);
                assert(deleted.drop_last().contains(rest[i].path));
                let k = choose|k: int| 0 <= k < deleted.drop_last().len() && deleted.drop_last()[k] == rest[i].path;
                assert(deleted[k] == rest[i].path);
            } else {
                assert(all[i].path == deleted.last());
                assert(deleted[deleted.len() - 1] == deleted.last());
            }
        }
    }
}

/// A listing without `.git`, once prepared, shows no `.git` entry but a
/// deleted file that git reports.
pub proof fn lemma_prepare_no_git(s: Seq<EntryView>, gs: Option<GitStatus>, dir: Seq<char>, depth: usize, filter: bool)
    requires
        forall|i: int| 0 <= i < s.len() ==> !is_git_dir(#[trigger] s[i]),
    ensures
        forall|i: int| 0 <= i < prepare_spec(s, gs, dir, depth, filter).len()
            ==> shown_name_ok(#[trigger] prepare_spec(s, gs, dir, depth, filter)[i], gs),
{
    let p = |e: EntryView| shown_name_ok(e, gs);
    match gs {
        None => {
            assert forall|i: int| 0 <= i < s.len() implies #[trigger] p(s[i]) by {}
            lemma_sort_keeps(s, p);
            assert forall|i: int| 0 <= i < sort_spec(s).len() implies shown_name_ok(#[trigger] sort_spec(s)[i], gs) by {
                assert(p(sort_spec(s)[i]));
            }
        },
        Some(g) => {
            let del = g.paths_with(FileStatus::Deleted);
            let inj = inject_spec(s, g, dir, depth);
            lemma_injected_deleted(s, del, dir, depth);
            assert forall|i: int| 0 <= i < inj.len() implies #[trigger] p(inj[i]) by {
                if i >= s.len() {
                    assert(inj[i] == injected(s, del, dir, depth)[i - s.len()]);
                } else {
                    assert(inj[i] == s[i]);
                }
            }
            lemma_sort_keeps(inj, p);
            let a = annotate_spec(sort_spec(inj), g.statuses());
            assert forall|i: int| 0 <= i < a.len() implies shown_name_ok(#[trigger] a[i], gs) by {
                assert(a[i] == annotated(sort_spec(inj)[i], g.statuses()));
                assert(p(sort_spec(inj)[i]));
                assert(a[i].path == sort_spec(inj)[i].path);
            }
            if filter {
                let f = filter_spec(a, g.statuses());
                assert forall|i: int| 0 <= i < f.len() implies shown_name_ok(#[trigger] f[i], gs) by {
                    a.lemma_filter_contains_rev(keep_changed(g.statuses()), f[i]);
                    assert(f.contains(f[i]));
                    let k = choose|k: int| 0 <= k < a.len() && a[k] == f[i];
                    assert(shown_name_ok(a[k], gs));
                }
            }
        },
    }
}

/// A listing without `.git` has no entry named `.git`.
pub proof fn lemma_without_git(s: Seq<EntryView>)
    ensures
        forall|i: int| 0 <= i < without_git(s).len() ==> !is_git_dir(#[trigger] without_git(s)[i]),
        root_listing(s) ==> root_listing(without_git(s)),
{
    let f = |e: EntryView| !is_git_dir(e);
    assert forall|i: int| 0 <= i < without_git(s).len() implies !is_git_dir(#[trigger] without_git(s)[i]) by {
        s.lemma_filter_pred(f, i);
    }
    if root_listing(s) {
        assert forall|i: int| 0 <= i < without_git(s).len() implies at_root(#[trigger] without_git(s)[i]) by {
            s.lemma_filter_contains_rev(f, without_git(s)[i]);
            assert(without_git(s).contains(without_git(s)[i]));
            let k = choose|k: int| 0 <= k < s.len() && s[k] == without_git(s)[i];
            assert(at_root(s[k]));
        }
    }
}

/// Whether `scan` is a listing of the root as the tree takes it (see
/// [`root_listing`]).
pub fn is_root_listing(scan: &Vec<TreeEntry>) -> (r: bool)
    ensures
        r == root_listing(views(scan@)),
{
    let mut i: usize = 0;
    while i < scan.len()
        invariant
            i <= scan@.len(),
            forall|k: int| 0 <= k < i ==> at_root(#[trigger] views(scan@)[k]),
        decreases scan.len() - i,
    {
        let e = &scan[i];
        assert(views(scan@)[i as int] == e@);
        if e.depth != 0 || e.is_expanded {
            return false;
        }
        i = i + 1;
    }
    true
}

proof fn lemma_sort_keeps_root(s: Seq<EntryView>)
    requires
        forall|i: int| 0 <= i < s.len() ==> at_root(#[trigger] s[i]),
    ensures
        forall|i: int| 0 <= i < sort_spec(s).len() ==> at_root(#[trigger] sort_spec(s)[i]),
        sort_spec(s).len() == s.len(),
    decreases s.len(),
{
    if s.len() > 0 {
        let d = s.drop_last();
        let x = s.last();
        lemma_sort_keeps_root(d);
        let t = sort_spec(d);
        lemma_count_not_after_bound(t, x);
        let p = count_not_after(t, x) as int;
        assert(insert_entry(t, x) =~= t.insert(p, x));
        assert forall|i: int| 0 <= i < sort_spec(s).len() implies at_root(#[trigger] sort_spec(s)[i]) by {
            if i < p {
                assert(sort_spec(s)[i] == t[i]);
            } else if i > p {
                assert(sort_spec(s)[i] == t[i - 1]);
            }
        }
    }
}

proof fn lemma_injected_root(existing: Seq<EntryView>, deleted: Seq<Seq<char>>, dir: Seq<char>)
    ensures
        forall|i: int| 0 <= i < injected(existing, deleted, dir, 0).len() ==> at_root(#[trigger] injected(existing, deleted, dir, 0)[i]),
    decreases deleted.len(),
{
    if deleted.len() > 0 {
        lemma_injected_root(existing, deleted.drop_last(), dir);
        let rest = injected(existing, deleted.drop_last(), dir, 0);
        let all = injected(existing, deleted, dir, 0);
        assert forall|i: int| 0 <= i < all.len() implies at_root(#[trigger] all[i]) by {
            if i < rest.len() {
                assert(all[i] == rest[i]);
            }
        }
    }
}

/// The root level prepared from a root listing stays at the root level:
/// every entry at depth 0 and collapsed.
proof fn lemma_prepare_root(s: Seq<EntryView>, gs: Option<GitStatus>, dir: Seq<char>, filter: bool)
    requires
        root_listing(s),
    ensures
        forall|i: int| 0 <= i < prepare_spec(s, gs, dir, 0, filter).len() ==> at_root(#[trigger] prepare_spec(s, gs, dir, 0, filter)[i]),
{
    match gs {
        None => {
            lemma_sort_keeps_root(s);
        },
        Some(g) => {
            let inj = inject_spec(s, g, dir, 0);
            lemma_injected_root(s, g.paths_with(FileStatus::Deleted), dir);
            assert forall|i: int| 0 <= i < inj.len() implies at_root(#[trigger] inj[i]) by {
                if i >= s.len() {
                    assert(inj[i] == injected(s, g.paths_with(FileStatus::Deleted), dir, 0)[i - s.len()]);
                }
            }
            lemma_sort_keeps_root(inj);
            let a = annotate_spec(sort_spec(inj), g.statuses());
            assert forall|i: int| 0 <= i < a.len() implies at_root(#[trigger] a[i]) by {
                assert(a[i] == annotated(sort_spec(inj)[i], g.statuses()));
            }
            if filter {
                let f = filter_spec(a, g.statuses());
                assert forall|i: int| 0 <= i < f.len() implies at_root(#[trigger] f[i]) by {
                    a.lemma_filter_contains_rev(keep_changed(g.statuses()), f[i]);
                    assert(f.contains(f[i]));
                }
            }
        },
    }
}

/// Annotate tree entries with git status information.
pub(crate) fn annotate_entries(entries: &mut Vec<TreeEntry>, gs: &GitStatus)
    ensures
        views(final(entries)@) == annotate_spec(views(old(entries)@), gs.statuses()),
{
    let mut i: usize = 0;
    while i < entries.len()
        invariant
            i <= entries@.len(),
            entries@.len() == old(entries)@.len(),
            forall|k: int| 0 <= k < i ==> #[trigger] entries@[k]@ == annotated(old(entries)@[k]@, gs.statuses()),
            forall|k: int| i <= k < entries@.len() ==> #[trigger] entries@[k] == old(entries)@[k],
        decreases entries.len() - i,
    {
        if !entries[i].is_directory {
            let st = gs.file_status(entries[i].path.as_str());
            let mut e = entries.remove(i);
            e.git_status = st;
            entries.insert(i, e);
        }
        i = i + 1;
    }
    assert(views(entries@) =~= annotate_spec(views(old(entries)@), gs.statuses()));
}

/// Filter entries to only include files with git changes and directories containing changes.
fn filter_changed_entries(entries: &mut Vec<TreeEntry>, gs: &GitStatus)
    ensures
        views(final(entries)@) == filter_spec(views(old(entries)@), gs.statuses()),
{
    let mut input: Vec<TreeEntry> = Vec::new();
    std::mem::swap(&mut input, entries);
    let ghost ins = views(input@);
    let ghost raw = input@;
    let mut out: Vec<TreeEntry> = Vec::new();
    for e in it: input.into_iter()
        invariant
            raw == old(entries)@,
            ins == views(raw),
            it.seq() == raw,
            views(out@) == ins.take(it.index() as int).filter(keep_changed(gs.statuses())),
    {
        let ghost i = it.index() as int;
        proof {
            let t = ins.take(i + 1);
            assert(t.drop_last() =~= ins.take(i));
            assert(raw[i] == e);
            assert(t.last() == e@);
            reveal(Seq::filter);
            assert(t.filter(keep_changed(gs.statuses())) == if keep_changed(gs.statuses())(t.last()) { t.drop_last().filter(keep_changed(gs.statuses())).push(t.last()) } else { t.drop_last().filter(keep_changed(gs.statuses())) });
        }
        let keep = if e.is_directory { gs.dir_has_changes(e.path.as_str()) } else { e.git_status.is_some() };
        if keep {
            out.push(e);
            proof {
                assert(views(out@) =~= views(out@).drop_last().push(out@.last()@));
            }
        }
    }
    proof {
        assert(ins.take(ins.len() as int) =~= ins);
    }
    *entries = out;
}

/// Inject deleted files as virtual entries: deleted files exist in git but not
/// on disk, so a directory scan cannot find them. `dir` is the directory being
/// listed, `depth` the depth of its entries.
fn inject_deleted_files(entries: &mut Vec<TreeEntry>, gs: &GitStatus, dir: &str, depth: usize)
    ensures
        views(final(entries)@) == inject_spec(views(old(entries)@), *gs, dir@, depth),
{
    let ghost existing = views(entries@);
    let deleted = gs.files_with_status(FileStatus::Deleted);
    let ghost dv = crate::comments::lines_view(deleted@);
    let n = entries.len();
    let mut k: usize = 0;
    while k < deleted.len()
        invariant
            k <= deleted@.len(),
            n == existing.len(),
            dv == crate::comments::lines_view(deleted@),
            dv == gs.paths_with(FileStatus::Deleted),
            entries@.len() >= n,
            views(entries@) == existing + injected(existing, dv.take(k as int), dir@, depth),
        decreases deleted.len() - k,
    {
        proof {
            let t = dv.take(k as int + 1);
            assert(t.drop_last() =~= dv.take(k as int));
            assert(t.last() == deleted@[k as int]@);
        }
        let parent = crate::paths::parent_path(deleted[k].as_str());
        let in_dir = match &parent {
            Some(q) => str_eq(q.as_str(), dir),
            None => false,
        };
        if in_dir {
            // only the entries that were there before injection count as existing
            let mut seen = false;
            let mut j: usize = 0;
            while j < n
                invariant
                    k < deleted@.len(),
                    j <= n <= entries@.len(),
                    n == existing.len(),
                    views(entries@).take(n as int) == existing,
                    seen == exists|m: int| 0 <= m < j && existing[m].path == deleted@[k as int]@,
                decreases n - j,
            {
                proof {
                    assert(existing[j as int] == views(entries@).take(n as int)[j as int]);
                }
                if str_eq(entries[j].path.as_str(), deleted[k].as_str()) {
                    seen = true;
                }
                j = j + 1;
            }
            if !seen {
                let mut e = TreeEntry::file(deleted[k].clone(), depth);
                e.git_status = Some(FileStatus::Deleted);
                let ghost before = views(entries@);
                entries.push(e);
                proof {
                    assert(views(entries@) =~= before.push(deleted_entry(deleted@[k as int]@, depth)));
                }
            }
        }
        proof {
            assert(views(entries@).take(n as int) =~= existing);
        }
        k = k + 1;
    }
    assert(dv.take(dv.len() as int) =~= dv);
}

/// Post-process scanned entries: inject deleted files, sort, annotate git
/// status, and optionally filter to changed-only.
fn prepare_entries(entries: &mut Vec<TreeEntry>, gs: Option<&GitStatus>, dir: &str, depth: usize, filter_changed: bool)
    ensures
        views(final(entries)@) == prepare_spec(views(old(entries)@), match gs { Some(g) => Some(*g), None => None }, dir@, depth, filter_changed),
{
    match gs {
        Some(g) => {
            inject_deleted_files(entries, g, dir, depth);
            sort_entries(entries);
            annotate_entries(entries, g);
            if filter_changed {
                filter_changed_entries(entries, g);
            }
        },
        None => {
            sort_entries(entries);
        },
    }
}

/// The entry with its expanded flag set.
pub open spec fn with_expanded(e: EntryView, x: bool) -> EntryView {
    EntryView { is_expanded: x, ..e }
}

/// The first index at or after `from` whose entry is at depth `d` or shallower
/// (the length of `s` when there is none).
pub open spec fn first_shallow(s: Seq<EntryView>, from: int, d: usize) -> int
    decreases s.len() - from,
{
    if from >= s.len() {
        s.len() as int
    } else if s[from].depth <= d {
        from
    } else {
        first_shallow(s, from + 1, d)
    }
}

proof fn lemma_first_shallow_bounds(s: Seq<EntryView>, from: int, d: usize)
    requires
        0 <= from <= s.len(),
    ensures
        from <= first_shallow(s, from, d) <= s.len(),
    decreases s.len() - from,
{
    if from < s.len() && s[from].depth > d {
        lemma_first_shallow_bounds(s, from + 1, d);
    }
}

/// The first index of an entry with path `p`, or -1.
pub open spec fn index_of_path(s: Seq<EntryView>, p: Seq<char>) -> int
    decreases s.len(),
{
    if s.len() == 0 {
        -1
    } else {
        let i = index_of_path(s.drop_last(), p);
        if i >= 0 { i } else if s.last().path == p { s.len() - 1 } else { -1 }
    }
}

/// The entries after toggling the expansion of entry `sel`, given the raw
/// scan of its children for the case that it expands.
pub open spec fn toggled(s: Seq<EntryView>, sel: int, children: Seq<EntryView>, gs: Option<GitStatus>, filter: bool) -> Seq<EntryView> {
    if !(0 <= sel < s.len()) || !s[sel].is_directory {
        s
    } else if s[sel].is_expanded {
        s.take(sel) + seq![with_expanded(s[sel], false)] + s.skip(first_shallow(s, sel + 1, s[sel].depth))
    } else {
        s.take(sel) + seq![with_expanded(s[sel], true)]
            + prepare_spec(children, gs, s[sel].path, (s[sel].depth + 1) as usize, filter)
            + s.skip(sel + 1)
    }
}

/// Index of the first scan of directory `dir`, if any.
fn find_scan(scans: &Vec<(String, Vec<TreeEntry>)>, dir: &str) -> (r: Option<usize>)
    ensures
        match r {
            Some(k) => k as int == scan_index(scan_views(scans@), dir@) && k < scans@.len(),
            None => scan_index(scan_views(scans@), dir@) == -1,
        },
{
    let ghost sv = scan_views(scans@);
    let mut i: usize = 0;
    while i < scans.len()
        invariant
            i <= scans@.len(),
            sv == scan_views(scans@),
            forall|j: int| 0 <= j < i ==> sv[j].0 != dir@,
        decreases scans.len() - i,
    {
        if str_eq(scans[i].0.as_str(), dir) {
            proof {
                lemma_scan_index_first(sv, dir@, i as int);
            }
            return Some(i);
        }
        i = i + 1;
    }
    proof {
        lemma_scan_index_bounds(sv, dir@);
        if scan_index(sv, dir@) >= 0 {
            let j = scan_index(sv, dir@);
            assert(sv[j].0 == dir@);
        }
    }
    None
}

/// Position of the first entry with path `p`, if any.
fn position_of_path(entries: &Vec<TreeEntry>, p: &str) -> (r: Option<usize>)
    ensures
        match r {
            Some(i) => i as int == index_of_path(views(entries@), p@) && i < entries@.len(),
            None => index_of_path(views(entries@), p@) == -1,
        },
{
    let ghost vs = views(entries@);
    let mut i: usize = 0;
    while i < entries.len()
        invariant
            i <= entries@.len(),
            vs == views(entries@),
            index_of_path(vs.take(i as int), p@) == -1,
        decreases entries.len() - i,
    {
        proof {
            let t = vs.take(i as int + 1);
            assert(t.drop_last() =~= vs.take(i as int));
        }
        if str_eq(entries[i].path.as_str(), p) {
            proof {
                lemma_index_of_path_prefix(vs, p@, i as int + 1);
            }
            return Some(i);
        }
        i = i + 1;
    }
    assert(vs.take(vs.len() as int) =~= vs);
    None
}

proof fn lemma_index_of_path_prefix(s: Seq<EntryView>, p: Seq<char>, k: int)
    requires
        0 <= k <= s.len(),
        index_of_path(s.take(k), p) >= 0,
    ensures
        index_of_path(s, p) == index_of_path(s.take(k), p),
    decreases s.len() - k,
{
    if k < s.len() {
        let t = s.take(k + 1);
        assert(t.drop_last() =~= s.take(k));
        lemma_index_of_path_prefix(s, p, k + 1);
    } else {
        assert(s.take(k) =~= s);
    }
}

/// The paths of the expanded directories, in order.
pub open spec fn expanded_dirs(s: Seq<EntryView>) -> Seq<Seq<char>>
    decreases s.len(),
{
    if s.len() == 0 {
        Seq::empty()
    } else if s.last().is_directory && s.last().is_expanded {
        expanded_dirs(s.drop_last()).push(s.last().path)
    } else {
        expanded_dirs(s.drop_last())
    }
}

/// Paths of the entries that show a deleted file, in order.
pub open spec fn deleted_paths(s: Seq<EntryView>) -> Seq<Seq<char>>
    decreases s.len(),
{
    if s.len() == 0 {
        Seq::empty()
    } else if s.last().git_status == Some(FileStatus::Deleted) {
        deleted_paths(s.drop_last()).push(s.last().path)
    } else {
        deleted_paths(s.drop_last())
    }
}

/// Kept when git status is refreshed: anything but a deleted-file entry whose
/// file is not on disk.
pub open spec fn keep_on_refresh(on_disk: Set<Seq<char>>) -> spec_fn(EntryView) -> bool {
    |e: EntryView| e.git_status != Some(FileStatus::Deleted) || on_disk.contains(e.path)
}

/// Files lose their status; directories are unchanged.
pub open spec fn cleared(e: EntryView) -> EntryView {
    if e.is_directory { e } else { with_git_status(e, None) }
}

/// Inject deleted files into each of the directories `dirs` (in order) that
/// the list holds, below that directory's entry.
pub open spec fn inject_into_dirs(s: Seq<EntryView>, g: GitStatus, dirs: Seq<Seq<char>>) -> Seq<EntryView>
    decreases dirs.len(),
{
    if dirs.len() == 0 {
        s
    } else {
        let t = inject_into_dirs(s, g, dirs.drop_last());
        let i = index_of_path(t, dirs.last());
        if 0 <= i < t.len() && t[i].depth < usize::MAX {
            inject_spec(t, g, dirs.last(), (t[i].depth + 1) as usize)
        } else {
            t
        }
    }
}

/// The entries after a git status refresh.
pub open spec fn regit_spec(s: Seq<EntryView>, gs: Option<GitStatus>, root: Seq<char>, filter: bool, on_disk: Set<Seq<char>>) -> Seq<EntryView> {
    let base = s.filter(keep_on_refresh(on_disk)).map_values(|e: EntryView| cleared(e));
    match gs {
        None => base,
        Some(g) => {
            let a = annotate_spec(inject_into_dirs(inject_spec(base, g, root, 0), g, expanded_dirs(s)), g.statuses());
            if filter { filter_spec(a, g.statuses()) } else { a }
        },
    }
}

/// The selection after the entries changed: the entry with the previously
/// selected path, else the old index clamped to the list.
pub open spec fn restored_selection(old_s: Seq<EntryView>, old_sel: usize, new_s: Seq<EntryView>) -> int {
    if old_sel < old_s.len() && index_of_path(new_s, old_s[old_sel as int].path) >= 0 {
        index_of_path(new_s, old_s[old_sel as int].path)
    } else if new_s.len() == 0 {
        0
    } else if old_sel < new_s.len() - 1 {
        old_sel as int
    } else {
        new_s.len() - 1
    }
}

/// The scan of `dir` among `scans` (first match) and the scans left without it.
pub open spec fn scan_index(scans: Seq<(Seq<char>, Seq<EntryView>)>, dir: Seq<char>) -> int
    decreases scans.len(),
{
    if scans.len() == 0 {
        -1
    } else {
        let i = scan_index(scans.drop_last(), dir);
        if i >= 0 { i } else if scans.last().0 == dir { scans.len() - 1 } else { -1 }
    }
}

proof fn lemma_scan_index_bounds(scans: Seq<(Seq<char>, Seq<EntryView>)>, dir: Seq<char>)
    ensures
        -1 <= scan_index(scans, dir) < scans.len(),
        scan_index(scans, dir) >= 0 ==> scans[scan_index(scans, dir)].0 == dir,
        scan_index(scans, dir) == -1 ==> forall|j: int| 0 <= j < scans.len() ==> scans[j].0 != dir,
    decreases scans.len(),
{
    if scans.len() > 0 {
        lemma_scan_index_bounds(scans.drop_last(), dir);
        if scan_index(scans.drop_last(), dir) == -1 && scans.last().0 != dir {
            assert forall|j: int| 0 <= j < scans.len() implies scans[j].0 != dir by {
                if j < scans.len() - 1 {
                    assert(scans.drop_last()[j] == scans[j]);
                }
            }
        }
    }
}

/// The plain view of directory scans: each directory's path and listing.
pub open spec fn scan_views(v: Seq<(String, Vec<TreeEntry>)>) -> Seq<(Seq<char>, Seq<EntryView>)> {
    v.map_values(|p: (String, Vec<TreeEntry>)| (p.0@, views(p.1@)))
}

proof fn lemma_scan_index_first(scans: Seq<(Seq<char>, Seq<EntryView>)>, dir: Seq<char>, i: int)
    requires
        0 <= i < scans.len(),
        scans[i].0 == dir,
        forall|j: int| 0 <= j < i ==> scans[j].0 != dir,
    ensures
        scan_index(scans, dir) == i,
    decreases scans.len(),
{
    if i < scans.len() - 1 {
        lemma_scan_index_first(scans.drop_last(), dir, i);
    } else {
        lemma_scan_index_bounds(scans.drop_last(), dir);
        if scan_index(scans.drop_last(), dir) >= 0 {
            let j = scan_index(scans.drop_last(), dir);
            assert(scans.drop_last()[j] == scans[j]);
        }
    }
}

/// Re-expand, from index `i` on, every directory whose path is in `exp` and
/// for which `scans` holds a listing, inserting its prepared scan (each scan
/// used once). A directory without a scan stays collapsed.
pub open spec fn reexpand(s: Seq<EntryView>, i: int, exp: Seq<Seq<char>>, scans: Seq<(Seq<char>, Seq<EntryView>)>, gs: Option<GitStatus>, filter: bool) -> Seq<EntryView>
    decreases scans.len(), s.len() - i,
{
    if i < 0 || i >= s.len() {
        s
    } else if s[i].is_directory && exp.contains(s[i].path) && s[i].depth < usize::MAX
        && 0 <= scan_index(scans, s[i].path) < scans.len() {
        let k = scan_index(scans, s[i].path);
        let next = s.take(i) + seq![with_expanded(s[i], true)]
            + prepare_spec(scans[k].1, gs, s[i].path, (s[i].depth + 1) as usize, filter) + s.skip(i + 1);
        reexpand(next, i + 1, exp, scans.remove(k), gs, filter)
    } else {
        reexpand(s, i + 1, exp, scans, gs, filter)
    }
}

/// A copy of an entry.
pub fn copy_entry(e: &TreeEntry) -> (r: TreeEntry)
    ensures
        r@ == e@,
{
    TreeEntry {
        path: e.path.clone(),
        depth: e.depth,
        is_directory: e.is_directory,
        is_expanded: e.is_expanded,
        git_status: e.git_status,
        is_gitignored: e.is_gitignored,
    }
}

/// A copy of a list of entries.
pub fn copy_entries(v: &Vec<TreeEntry>) -> (r: Vec<TreeEntry>)
    ensures
        views(r@) == views(v@),
{
    let mut r: Vec<TreeEntry> = Vec::new();
    let mut i: usize = 0;
    while i < v.len()
        invariant
            i <= v@.len(),
            views(r@) == views(v@).take(i as int),
        decreases v.len() - i,
    {
        let ghost before = views(r@);
        r.push(copy_entry(&v[i]));
        proof {
            assert(views(r@) =~= before.push(v@[i as int]@));
            assert(views(v@).take(i as int + 1) =~= views(v@).take(i as int).push(v@[i as int]@));
        }
        i = i + 1;
    }
    assert(views(v@).take(v@.len() as int) =~= views(v@));
    r
}

/// The file tree model manages the full tree state (all entries, selection, expansion).
pub struct FileTreeModel {
    /// All entries currently in the tree (flat list reflecting expanded state).
    pub entries: Vec<TreeEntry>,
    /// Index of the currently selected entry.
    pub selected: usize,
    /// Root directory being displayed.
    pub root: String,
    /// Git status for the repository (None if not inside a git repo).
    pub git_status: Option<GitStatus>,
    /// Whether the changed-files-only filter is active.
    pub filter_changed: bool,
}

impl FileTreeModel {
    /// The root directory being displayed.
    pub open spec fn root_path(&self) -> Seq<char> {
        self.root@
    }

    /// The git status the tree is annotated with.
    pub open spec fn git(&self) -> Option<GitStatus> {
        self.git_status
    }

    /// Build a new tree model from a root directory and the scan of its
    /// immediate children. The root is expanded by default; `.git` is never
    /// shown.
    pub fn from_dir(root: &str, scanned: Vec<TreeEntry>, git_status: Option<GitStatus>) -> (r: Self)
        requires
            root_listing(views(scanned@)),
        ensures
            views(r.entries@) == prepare_spec(without_git(views(scanned@)), git_status, root@, 0, false),
            forall|i: int| 0 <= i < r.entries@.len() ==> at_root(#[trigger] views(r.entries@)[i]),
            forall|i: int| 0 <= i < r.entries@.len() ==> shown_name_ok(#[trigger] views(r.entries@)[i], git_status),
            r.selected == 0,
            !r.filter_changed,
            r.root_path() == root@,
            r.git() == git_status,
    {
        let mut entries = drop_git_entries(scanned);
        proof {
            lemma_without_git(views(scanned@));
            lemma_prepare_root(views(entries@), git_status, root@, false);
            lemma_prepare_no_git(views(entries@), git_status, root@, 0, false);
        }
        prepare_entries(&mut entries, git_status.as_ref(), root, 0, false);
        FileTreeModel { entries, selected: 0, root: crate::text::to_owned_string(root), git_status, filter_changed: false }
    }

    /// The directory whose children `toggle_expand` needs scanned, and the
    /// depth they get: `Some` exactly when the selected entry is a collapsed
    /// directory.
    pub fn expansion_target(&self) -> (r: Option<(String, usize)>)
        ensures
            match r {
                Some((p, d)) => self.selected < self.entries@.len()
                    && self.entries@[self.selected as int].is_directory
                    && !self.entries@[self.selected as int].is_expanded
                    && p@ == self.entries@[self.selected as int].path@
                    && d == self.entries@[self.selected as int].depth + 1,
                None => !(self.selected < self.entries@.len()
                    && self.entries@[self.selected as int].is_directory
                    && !self.entries@[self.selected as int].is_expanded
                    && self.entries@[self.selected as int].depth < usize::MAX),
            },
    {
        if self.selected < self.entries.len() {
            let e = &self.entries[self.selected];
            if e.is_directory && !e.is_expanded && e.depth < usize::MAX {
                return Some((e.path.clone(), e.depth + 1));
            }
        }
        None
    }

    /// Toggle expand/collapse on the selected entry. No-op if the selection is
    /// a file. Expanding inserts `children`, the scan of the directory,
    /// prepared like any listing.
    pub fn toggle_expand(&mut self, children: Vec<TreeEntry>)
        requires
            old(self).selected < old(self).entries@.len() ==> old(self).entries@[old(self).selected as int].depth < usize::MAX,
            old(self).selected < old(self).entries@.len() && old(self).entries@[old(self).selected as int].is_directory
                && !old(self).entries@[old(self).selected as int].is_expanded
                ==> all_at_depth(views(children@), (old(self).entries@[old(self).selected as int].depth + 1) as usize),
        ensures
            toggle_result(*old(self), *final(self), views(children@)),
    {
        let sel = self.selected;
        if sel >= self.entries.len() {
            return;
        }
        if !self.entries[sel].is_directory {
            return;
        }
        let ghost s = views(self.entries@);
        if self.entries[sel].is_expanded {
            let depth = self.entries[sel].depth;
            let mut end = sel + 1;
            proof {
                lemma_first_shallow_bounds(s, sel + 1, depth);
            }
            while end < self.entries.len() && self.entries[end].depth > depth
                invariant
                    sel < end <= self.entries@.len(),
                    s == views(self.entries@),
                    depth == s[sel as int].depth,
                    first_shallow(s, end as int, depth) == first_shallow(s, sel + 1, depth),
                decreases self.entries.len() - end,
            {
                end = end + 1;
            }
            let mut tail = self.entries.split_off(end);
            self.entries.truncate(sel + 1);
            let mut e = self.entries.pop().unwrap();
            e.is_expanded = false;
            self.entries.push(e);
            self.entries.append(&mut tail);
            proof {
                assert(views(self.entries@) =~= s.take(sel as int) + seq![with_expanded(s[sel as int], false)] + s.skip(end as int));
            }
        } else {
            let path = self.entries[sel].path.clone();
            let child_depth = self.entries[sel].depth + 1;
            let mut kids = children;
            prepare_entries(&mut kids, self.git_status.as_ref(), path.as_str(), child_depth, self.filter_changed);
            let mut tail = self.entries.split_off(sel + 1);
            let mut e = self.entries.pop().unwrap();
            e.is_expanded = true;
            self.entries.push(e);
            self.entries.append(&mut kids);
            self.entries.append(&mut tail);
            proof {
                assert(views(self.entries@) =~= s.take(sel as int) + seq![with_expanded(s[sel as int], true)]
                    + prepare_spec(views(children@), self.git_status, s[sel as int].path, (s[sel as int].depth + 1) as usize, self.filter_changed)
                    + s.skip(sel + 1));
            }
        }
    }

    /// Return the currently selected entry, if any.
    pub fn selected_entry(&self) -> (r: Option<&TreeEntry>)
        ensures
            match r {
                Some(e) => self.selected < self.entries@.len() && *e == self.entries@[self.selected as int],
                None => self.selected >= self.entries@.len(),
            },
    {
        if self.selected < self.entries.len() {
            Some(&self.entries[self.selected])
        } else {
            None
        }
    }

    /// Select the entry at `idx` and return it, or None if out of bounds.
    pub fn select_at(&mut self, idx: usize) -> (r: Option<&TreeEntry>)
        ensures
            idx < old(self).entries@.len() ==> *final(self) == (FileTreeModel { selected: idx, ..*old(self) })
                && r == Some(&old(self).entries@[idx as int]),
            idx >= old(self).entries@.len() ==> *final(self) == *old(self) && r is None,
            final(self).entries@ == old(self).entries@,
            final(self).filter_changed == old(self).filter_changed,
            final(self).root_path() == old(self).root_path(),
            final(self).git() == old(self).git(),
    {
        if idx < self.entries.len() {
            self.selected = idx;
            Some(&self.entries[idx])
        } else {
            None
        }
    }

    /// Return the path of the currently selected entry, if any.
    pub fn selected_path(&self) -> (r: Option<&str>)
        ensures
            match r {
                Some(p) => self.selected < self.entries@.len() && p@ == self.entries@[self.selected as int].path@,
                None => self.selected >= self.entries@.len(),
            },
    {
        if self.selected < self.entries.len() {
            Some(self.entries[self.selected].path.as_str())
        } else {
            None
        }
    }

    /// Get a reference to the git status data.
    pub fn git_status_ref(&self) -> (r: Option<&GitStatus>)
        ensures
            match r {
                Some(g) => self.git() == Some(*g),
                None => self.git() is None,
            },
    {
        self.git_status.as_ref()
    }

    /// Check if a directory has git changes among its descendants.
    pub fn dir_has_changes(&self, path: &str) -> (r: bool)
        ensures
            r == match self.git() {
                Some(g) => changed_dirs_of(g.statuses()).contains(path@),
                None => false,
            },
    {
        match &self.git_status {
            Some(g) => g.dir_has_changes(path),
            None => false,
        }
    }

    /// Toggle the changed-files-only filter, rebuilding the root level from
    /// `root_scan` (the scan of the root directory, `.git` dropped). No-op
    /// outside a git repo.
    pub fn toggle_filter(&mut self, root_scan: Vec<TreeEntry>)
        requires
            root_listing(views(root_scan@)),
        ensures
            old(self).git() is Some ==> forall|i: int| 0 <= i < final(self).entries@.len() ==> at_root(#[trigger] views(final(self).entries@)[i]),
            old(self).git() is Some ==> forall|i: int| 0 <= i < final(self).entries@.len() ==> shown_name_ok(#[trigger] views(final(self).entries@)[i], old(self).git()),
            old(self).git() is None ==> views(final(self).entries@) == views(old(self).entries@)
                && final(self).selected == old(self).selected
                && final(self).filter_changed == old(self).filter_changed,
            old(self).git() is Some ==> {
                &&& final(self).filter_changed == !old(self).filter_changed
                &&& views(final(self).entries@) == prepare_spec(without_git(views(root_scan@)), old(self).git(), old(self).root_path(), 0, !old(self).filter_changed)
                &&& final(self).selected == (if old(self).selected < old(self).entries@.len()
                        && index_of_path(views(final(self).entries@), old(self).entries@[old(self).selected as int].path@) >= 0 {
                        index_of_path(views(final(self).entries@), old(self).entries@[old(self).selected as int].path@)
                    } else {
                        0
                    })
            },
            final(self).root_path() == old(self).root_path(),
            final(self).git() == old(self).git(),
    {
        if self.git_status.is_none() {
            return;
        }
        self.filter_changed = !self.filter_changed;
        let selected_path: Option<String> = if self.selected < self.entries.len() {
            Some(self.entries[self.selected].path.clone())
        } else {
            None
        };
        let mut entries = drop_git_entries(root_scan);
        proof {
            lemma_without_git(views(root_scan@));
            lemma_prepare_root(views(entries@), self.git(), self.root@, self.filter_changed);
            lemma_prepare_no_git(views(entries@), self.git(), self.root@, 0, self.filter_changed);
        }
        prepare_entries(&mut entries, self.git_status.as_ref(), self.root.as_str(), 0, self.filter_changed);
        self.entries = entries;
        self.selected = match &selected_path {
            Some(p) => match position_of_path(&self.entries, p.as_str()) {
                Some(i) => i,
                None => 0,
            },
            None => 0,
        };
    }

    /// Paths of the entries that show a deleted file, in order; the caller
    /// reports which of them exist on disk again to `update_git_status`.
    pub fn deleted_entry_paths(&self) -> (r: Vec<String>)
        ensures
            crate::comments::lines_view(r@) == deleted_paths(views(self.entries@)),
    {
        let ghost s = views(self.entries@);
        let mut r: Vec<String> = Vec::new();
        let mut i: usize = 0;
        while i < self.entries.len()
            invariant
                i <= self.entries@.len(),
                s == views(self.entries@),
                crate::comments::lines_view(r@) == deleted_paths(s.take(i as int)),
            decreases self.entries.len() - i,
        {
            proof {
                let t = s.take(i as int + 1);
                assert(t.drop_last() =~= s.take(i as int));
            }
            if self.entries[i].git_status == Some(FileStatus::Deleted) {
                r.push(self.entries[i].path.clone());
            }
            i = i + 1;
        }
        assert(s.take(s.len() as int) =~= s);
        r
    }

    /// Whether every entry's depth is below the largest `usize`, as
    /// [`FileTreeModel::update_git_status`] needs.
    pub fn depths_in_limits(&self) -> (r: bool)
        ensures
            r == forall|j: int| 0 <= j < self.entries@.len() ==> (#[trigger] self.entries@[j]).depth < usize::MAX,
    {
        let mut i: usize = 0;
        while i < self.entries.len()
            invariant
                i <= self.entries@.len(),
                forall|j: int| 0 <= j < i ==> (#[trigger] self.entries@[j]).depth < usize::MAX,
            decreases self.entries.len() - i,
        {
            if self.entries[i].depth == usize::MAX {
                return false;
            }
            i = i + 1;
        }
        true
    }

    /// Update git status annotations without rescanning the filesystem:
    /// drop deleted-file entries whose file is not among `on_disk`, clear file
    /// annotations, re-inject deleted files at the root and in expanded
    /// directories, re-annotate, reapply the filter and restore the selection.
    pub fn update_git_status(&mut self, git_status: Option<GitStatus>, on_disk: &Vec<String>)
        requires
            forall|j: int| 0 <= j < old(self).entries@.len() ==> (#[trigger] old(self).entries@[j]).depth < usize::MAX,
        ensures
            views(final(self).entries@) == regit_spec(views(old(self).entries@), git_status, old(self).root_path(),
                old(self).filter_changed, crate::git_status::str_set(on_disk@)),
            final(self).selected == restored_selection(views(old(self).entries@), old(self).selected, views(final(self).entries@)),
            final(self).git() == git_status,
            final(self).root_path() == old(self).root_path(),
            final(self).filter_changed == old(self).filter_changed,
    {
        let ghost s = views(self.entries@);
        let ghost disk = crate::git_status::str_set(on_disk@);
        self.git_status = git_status;
        let expanded = self.expanded_paths();
        let selected_path: Option<String> = if self.selected < self.entries.len() {
            Some(self.entries[self.selected].path.clone())
        } else {
            None
        };
        // keep what is not a deleted-file entry gone from disk, and clear file annotations
        let mut input: Vec<TreeEntry> = Vec::new();
        std::mem::swap(&mut input, &mut self.entries);
        let ghost raw = input@;
        let mut kept: Vec<TreeEntry> = Vec::new();
        for e in it: input.into_iter()
            invariant
                raw == old(self).entries@,
                s == views(raw),
                disk == crate::git_status::str_set(on_disk@),
                it.seq() == raw,
                views(kept@) == s.take(it.index() as int).filter(keep_on_refresh(disk)).map_values(|e: EntryView| cleared(e)),
                forall|j: int| 0 <= j < kept@.len() ==> (#[trigger] kept@[j]).depth < usize::MAX,
                forall|j: int| 0 <= j < raw.len() ==> (#[trigger] raw[j]).depth < usize::MAX,
        {
            let ghost i = it.index() as int;
            proof {
                let t = s.take(i + 1);
                assert(t.drop_last() =~= s.take(i));
                assert(raw[i] == e);
                assert(t.last() == e@);
                reveal(Seq::filter);
                assert(t.filter(keep_on_refresh(disk)) == if keep_on_refresh(disk)(t.last()) { t.drop_last().filter(keep_on_refresh(disk)).push(t.last()) } else { t.drop_last().filter(keep_on_refresh(disk)) });
            }
            let keep = if e.git_status == Some(FileStatus::Deleted) { crate::git_status::contains_str(on_disk, e.path.as_str()) } else { true };
            if keep {
                let mut e = e;
                if !e.is_directory {
                    e.git_status = None;
                }
                let ghost before = views(kept@);
                kept.push(e);
                proof {
                    assert(views(kept@) =~= before.push(kept@.last()@));
                }
            }
        }
        proof {
            assert(s.take(s.len() as int) =~= s);
        }
        let mut entries = kept;
        match &self.git_status {
            Some(gs) => {
                inject_deleted_files(&mut entries, gs, self.root.as_str(), 0);
                let mut k: usize = 0;
                let ghost exp = expanded_dirs(s);
                let ghost base = views(entries@);
                while k < expanded.len()
                    invariant
                        k <= expanded@.len(),
                        crate::comments::lines_view(expanded@) == exp,
                        views(entries@) == inject_into_dirs(base, *gs, exp.take(k as int)),
                    decreases expanded.len() - k,
                {
                    proof {
                        let t = exp.take(k as int + 1);
                        assert(t.drop_last() =~= exp.take(k as int));
                        assert(t.last() == expanded@[k as int]@);
                    }
                    match position_of_path(&entries, expanded[k].as_str()) {
                        Some(j) => {
                            if entries[j].depth < usize::MAX {
                                let child_depth = entries[j].depth + 1;
                                inject_deleted_files(&mut entries, gs, expanded[k].as_str(), child_depth);
                            }
                        },
                        None => {},
                    }
                    k = k + 1;
                }
                proof {
                    assert(exp.take(exp.len() as int) =~= exp);
                }
                annotate_entries(&mut entries, gs);
                if self.filter_changed {
                    filter_changed_entries(&mut entries, gs);
                }
            },
            None => {},
        }
        self.entries = entries;
        let n = self.entries.len();
        self.selected = match &selected_path {
            Some(p) => match position_of_path(&self.entries, p.as_str()) {
                Some(i) => i,
                None => {
                    if n == 0 { 0 } else if self.selected < n - 1 { self.selected } else { n - 1 }
                },
            },
            None => {
                if n == 0 { 0 } else if self.selected < n - 1 { self.selected } else { n - 1 }
            },
        };
    }

    /// Rebuild the tree from `root_scan`, the new listing of the root, keeping
    /// what was expanded expanded: each directory that was expanded and has a
    /// listing among `scans` gets it inserted below it (git status is not
    /// refreshed here). The selection follows its path.
    pub fn refresh_tree(&mut self, root_scan: Vec<TreeEntry>, scans: Vec<(String, Vec<TreeEntry>)>)
        ensures
            views(final(self).entries@) == reexpand(
                prepare_spec(views(root_scan@), old(self).git(), old(self).root_path(), 0, old(self).filter_changed),
                0, expanded_dirs(views(old(self).entries@)), scan_views(scans@), old(self).git(), old(self).filter_changed),
            final(self).selected == restored_selection(views(old(self).entries@), old(self).selected, views(final(self).entries@)),
            final(self).git() == old(self).git(),
            final(self).root_path() == old(self).root_path(),
            final(self).filter_changed == old(self).filter_changed,
    {
        let expanded = self.expanded_paths();
        let ghost exp = expanded_dirs(views(self.entries@));
        let selected_path: Option<String> = if self.selected < self.entries.len() {
            Some(self.entries[self.selected].path.clone())
        } else {
            None
        };
        let mut entries = root_scan;
        prepare_entries(&mut entries, self.git_status.as_ref(), self.root.as_str(), 0, self.filter_changed);
        let ghost gs = self.git();
        let ghost filter = self.filter_changed;
        let ghost target = reexpand(views(entries@), 0, exp, scan_views(scans@), gs, filter);
        let mut scans = scans;
        let mut i: usize = 0;
        while i < entries.len()
            invariant
                crate::comments::lines_view(expanded@) == exp,
                gs == match &self.git_status { Some(g) => Some(*g), None => None },
                filter == self.filter_changed,
                reexpand(views(entries@), i as int, exp, scan_views(scans@), gs, filter) == target,
            decreases scans.len(), entries.len() - i,
        {
            let ghost s = views(entries@);
            let ghost sv = scan_views(scans@);
            let mut found: Option<usize> = None;
            if entries[i].is_directory && entries[i].depth < usize::MAX
                && crate::git_status::contains_str(&expanded, entries[i].path.as_str()) {
                found = find_scan(&scans, entries[i].path.as_str());
            }
            proof {
                if entries[i as int].is_directory && entries[i as int].depth < usize::MAX {
                    if exp.contains(s[i as int].path) {
                        let j = choose|j: int| 0 <= j < exp.len() && exp[j] == s[i as int].path;
                        assert(expanded@[j]@ == exp[j]);
                    } else {
                        assert forall|j: int| 0 <= j < expanded@.len() implies expanded@[j]@ != s[i as int].path by {
                            assert(exp[j] == expanded@[j]@);
                        }
                    }
                }
                lemma_scan_index_bounds(sv, s[i as int].path);
            }
            match found {
                Some(k) => {
                    let (_, mut kids) = scans.remove(k);
                    proof {
                        assert(scan_views(scans@) =~= sv.remove(k as int));
                    }
                    let path = entries[i].path.clone();
                    let child_depth = entries[i].depth + 1;
                    prepare_entries(&mut kids, self.git_status.as_ref(), path.as_str(), child_depth, self.filter_changed);
                    let mut tail = entries.split_off(i + 1);
                    let mut e = entries.pop().unwrap();
                    e.is_expanded = true;
                    entries.push(e);
                    entries.append(&mut kids);
                    entries.append(&mut tail);
                    proof {
                        assert(views(entries@) =~= s.take(i as int) + seq![with_expanded(s[i as int], true)]
                            + prepare_spec(sv[k as int].1, gs, s[i as int].path, (s[i as int].depth + 1) as usize, filter)
                            + s.skip(i + 1));
                    }
                },
                None => {},
            }
            i = i + 1;
        }
        self.entries = entries;
        let n = self.entries.len();
        self.selected = match &selected_path {
            Some(p) => match position_of_path(&self.entries, p.as_str()) {
                Some(i) => i,
                None => {
                    if n == 0 { 0 } else if self.selected < n - 1 { self.selected } else { n - 1 }
                },
            },
            None => {
                if n == 0 { 0 } else if self.selected < n - 1 { self.selected } else { n - 1 }
            },
        };
    }

    /// Paths of the expanded directories, in order.
    pub fn expanded_paths(&self) -> (r: Vec<String>)
        ensures
            crate::comments::lines_view(r@) == expanded_dirs(views(self.entries@)),
    {
        let ghost s = views(self.entries@);
        let mut r: Vec<String> = Vec::new();
        let mut i: usize = 0;
        while i < self.entries.len()
            invariant
                i <= self.entries@.len(),
                s == views(self.entries@),
                crate::comments::lines_view(r@) == expanded_dirs(s.take(i as int)),
            decreases self.entries.len() - i,
        {
            proof {
                let t = s.take(i as int + 1);
                assert(t.drop_last() =~= s.take(i as int));
            }
            if self.entries[i].is_directory && self.entries[i].is_expanded {
                r.push(self.entries[i].path.clone());
            }
            i = i + 1;
        }
        assert(s.take(s.len() as int) =~= s);
        r
    }
}

proof fn lemma_count_not_after_bound(s: Seq<EntryView>, x: EntryView)
    ensures
        count_not_after(s, x) <= s.len(),
    decreases s.len(),
{
    if s.len() > 0 {
        lemma_count_not_after_bound(s.drop_last(), x);
    }
}

/// Sorting keeps exactly the entries it is given, each as often as it occurs.
pub proof fn law_sort_is_permutation(s: Seq<EntryView>)
    ensures
        sort_spec(s).to_multiset() == s.to_multiset(),
    decreases s.len(),
{
    if s.len() > 0 {
        let d = s.drop_last();
        let x = s.last();
        law_sort_is_permutation(d);
        let t = sort_spec(d);
        lemma_count_not_after_bound(t, x);
        let p = count_not_after(t, x) as int;
        assert(insert_entry(t, x) =~= t.insert(p, x));
        vstd::seq_lib::to_multiset_insert(t, p, x);
        vstd::seq_lib::to_multiset_build(d, x);
        assert(d.push(x) =~= s);
    }
}

/// Sorting a list that is already in order leaves it as it is (so sorting
/// twice gives what sorting once gave).
pub proof fn law_sorting_sorted_is_identity(s: Seq<EntryView>)
    requires
        sorted_entries(s),
    ensures
        sort_spec(s) == s,
    decreases s.len(),
{
    if s.len() > 0 {
        let d = s.drop_last();
        let x = s.last();
        assert(sorted_entries(d)) by {
            assert forall|i: int, j: int| 0 <= i < j < d.len() implies !entry_lt(d[j], d[i]) by {
                assert(d[i] == s[i] && d[j] == s[j]);
            }
        }
        law_sorting_sorted_is_identity(d);
        assert forall|j: int| 0 <= j < d.len() implies !entry_lt(x, d[j]) by {
            assert(d[j] == s[j]);
        }
        lemma_count_split(d, x, d.len() as int);
        assert(insert_entry(d, x) =~= s);
    }
}

/// Every entry of `s` is at depth `k`.
pub open spec fn all_at_depth(s: Seq<EntryView>, k: usize) -> bool {
    forall|i: int| 0 <= i < s.len() ==> (#[trigger] s[i]).depth == k
}

proof fn lemma_sort_keeps_depth(s: Seq<EntryView>, k: usize)
    requires
        all_at_depth(s, k),
    ensures
        all_at_depth(sort_spec(s), k),
    decreases s.len(),
{
    if s.len() > 0 {
        let d = s.drop_last();
        assert(all_at_depth(d, k)) by {
            assert forall|i: int| 0 <= i < d.len() implies (#[trigger] d[i]).depth == k by {
                assert(d[i] == s[i]);
            }
        }
        lemma_sort_keeps_depth(d, k);
        let t = sort_spec(d);
        lemma_count_not_after_bound(t, s.last());
        let p = count_not_after(t, s.last()) as int;
        let r = insert_entry(t, s.last());
        assert forall|i: int| 0 <= i < r.len() implies (#[trigger] r[i]).depth == k by {
            if i < p {
                assert(r[i] == t[i]);
            } else if i == p {
                assert(r[i] == s.last());
            } else {
                assert(r[i] == t[i - 1]);
            }
        }
    }
}

proof fn lemma_injected_depth(existing: Seq<EntryView>, deleted: Seq<Seq<char>>, dir: Seq<char>, depth: usize)
    ensures
        all_at_depth(injected(existing, deleted, dir, depth), depth),
    decreases deleted.len(),
{
    if deleted.len() > 0 {
        lemma_injected_depth(existing, deleted.drop_last(), dir, depth);
    }
}

proof fn lemma_prepare_keeps_depth(s: Seq<EntryView>, gs: Option<GitStatus>, dir: Seq<char>, k: usize, filter: bool)
    requires
        all_at_depth(s, k),
    ensures
        all_at_depth(prepare_spec(s, gs, dir, k, filter), k),
{
    match gs {
        None => {
            lemma_sort_keeps_depth(s, k);
        },
        Some(g) => {
            let inj = inject_spec(s, g, dir, k);
            lemma_injected_depth(s, g.paths_with(FileStatus::Deleted), dir, k);
            assert(all_at_depth(inj, k)) by {
                let extra = injected(s, g.paths_with(FileStatus::Deleted), dir, k);
                assert forall|i: int| 0 <= i < inj.len() implies (#[trigger] inj[i]).depth == k by {
                    if i < s.len() {
                        assert(inj[i] == s[i]);
                    } else {
                        assert(inj[i] == extra[i - s.len()]);
                    }
                }
            }
            lemma_sort_keeps_depth(inj, k);
            let a = annotate_spec(sort_spec(inj), g.statuses());
            assert(all_at_depth(a, k));
            if filter {
                let f = filter_spec(a, g.statuses());
                assert forall|i: int| 0 <= i < f.len() implies (#[trigger] f[i]).depth == k by {
                    assert(f.contains(f[i]));
                    a.lemma_filter_contains_rev(keep_changed(g.statuses()), f[i]);
                }
            }
        },
    }
}

proof fn lemma_first_shallow_at(t: Seq<EntryView>, from: int, d: usize, to: int)
    requires
        0 <= from <= to <= t.len(),
        forall|j: int| from <= j < to ==> (#[trigger] t[j]).depth > d,
        to == t.len() || t[to].depth <= d,
    ensures
        first_shallow(t, from, d) == to,
    decreases to - from,
{
    if from < to {
        lemma_first_shallow_at(t, from + 1, d, to);
    }
}

/// Whether every entry of `scan` sits at `depth`, as a directory listing
/// taken for an expansion does (see [`all_at_depth`]).
pub fn listing_at_depth(scan: &Vec<TreeEntry>, depth: usize) -> (r: bool)
    ensures
        r == all_at_depth(views(scan@), depth),
{
    let mut i: usize = 0;
    while i < scan.len()
        invariant
            i <= scan@.len(),
            forall|k: int| 0 <= k < i ==> (#[trigger] views(scan@)[k]).depth == depth,
        decreases scan.len() - i,
    {
        assert(views(scan@)[i as int] == scan@[i as int]@);
        if scan[i].depth != depth {
            return false;
        }
        i = i + 1;
    }
    true
}

/// What toggling the selected entry of `b` with the listing `children` gives
/// (see [`toggled`]): only the entries change.
pub open spec fn toggle_result(b: FileTreeModel, a: FileTreeModel, children: Seq<EntryView>) -> bool {
    &&& views(a.entries@) == toggled(views(b.entries@), b.selected as int, children, b.git(), b.filter_changed)
    &&& a.selected == b.selected
    &&& a.filter_changed == b.filter_changed
    &&& a.root_path() == b.root_path()
    &&& a.git() == b.git()
}

/// Expanding the selected collapsed directory with its listing (entries one
/// level deeper) and toggling it again collapses it: the tree and the
/// selection are as they were.
pub proof fn law_expand_then_collapse(m0: FileTreeModel, m1: FileTreeModel, m2: FileTreeModel, children: Seq<EntryView>, again: Seq<EntryView>)
    requires
        m0.selected < m0.entries@.len(),
        views(m0.entries@)[m0.selected as int].is_directory,
        !views(m0.entries@)[m0.selected as int].is_expanded,
        views(m0.entries@)[m0.selected as int].depth < usize::MAX,
        m0.selected + 1 < m0.entries@.len() ==> views(m0.entries@)[m0.selected + 1].depth <= views(m0.entries@)[m0.selected as int].depth,
        all_at_depth(children, (views(m0.entries@)[m0.selected as int].depth + 1) as usize),
        toggle_result(m0, m1, children),
        toggle_result(m1, m2, again),
    ensures
        views(m2.entries@) == views(m0.entries@),
        m2.selected == m0.selected,
{
    law_collapse_after_expand(views(m0.entries@), m0.selected as int, children, m0.git(), m0.filter_changed, again);
}

/// Collapsing a directory right after expanding it gives back the tree as
/// it was: the listing inserted below it (whose entries sit one level
/// deeper) is removed again.
pub proof fn law_collapse_after_expand(s: Seq<EntryView>, sel: int, children: Seq<EntryView>, gs: Option<GitStatus>,
    filter: bool, unused: Seq<EntryView>)
    requires
        0 <= sel < s.len(),
        s[sel].is_directory,
        !s[sel].is_expanded,
        s[sel].depth < usize::MAX,
        sel + 1 < s.len() ==> s[sel + 1].depth <= s[sel].depth,
        all_at_depth(children, (s[sel].depth + 1) as usize),
    ensures
        toggled(toggled(s, sel, children, gs, filter), sel, unused, gs, filter) == s,
{
    let d = s[sel].depth;
    let k = (d + 1) as usize;
    let p = prepare_spec(children, gs, s[sel].path, k, filter);
    lemma_prepare_keeps_depth(children, gs, s[sel].path, k, filter);
    let t = toggled(s, sel, children, gs, filter);
    assert(t == s.take(sel) + seq![with_expanded(s[sel], true)] + p + s.skip(sel + 1));
    let to = sel + 1 + p.len();
    assert forall|j: int| sel + 1 <= j < to implies (#[trigger] t[j]).depth > d by {
        assert(t[j] == p[j - sel - 1]);
    }
    if to < t.len() {
        assert(t[to] == s[sel + 1]);
    }
    lemma_first_shallow_at(t, sel + 1, d, to);
    assert(t[sel] == with_expanded(s[sel], true));
    let r = toggled(t, sel, unused, gs, filter);
    assert(with_expanded(with_expanded(s[sel], true), false) == s[sel]);
    assert(t.skip(to) =~= s.skip(sel + 1));
    assert(r =~= s);
}

/// `needle` occurs in `hay`.
pub open spec fn occurs_in(hay: Seq<char>, needle: Seq<char>) -> bool {
    exists|i: int| 0 <= i && i + needle.len() <= hay.len() && #[trigger] occurs_at(hay, needle, i)
}

/// `needle` occurs in `hay` at index `i`.
pub open spec fn occurs_at(hay: Seq<char>, needle: Seq<char>, i: int) -> bool {
    hay.subrange(i, i + needle.len()) == needle
}

/// Whether `needle` occurs in `hay` at `i`.
pub(crate) fn occurs_at_exec(hay: &Vec<char>, needle: &Vec<char>, i: usize) -> (r: bool)
    requires
        i + needle@.len() <= hay@.len(),
    ensures
        r == occurs_at(hay@, needle@, i as int),
{
    let n = hay.len();
    let mut j: usize = 0;
    while j < needle.len()
        invariant
            i + needle@.len() <= hay@.len(),
            n == hay@.len(),
            j <= needle@.len(),
            forall|q: int| 0 <= q < j ==> hay@[i + q] == needle@[q],
        decreases needle.len() - j,
    {
        if hay[i + j] != needle[j] {
            assert(hay@.subrange(i as int, i + needle@.len())[j as int] != needle@[j as int]);
            return false;
        }
        j = j + 1;
    }
    assert(hay@.subrange(i as int, i + needle@.len()) =~= needle@);
    true
}

/// Whether `needle` occurs in `hay`.
pub fn chars_contain(hay: &Vec<char>, needle: &Vec<char>) -> (r: bool)
    ensures
        r == occurs_in(hay@, needle@),
{
    let n = hay.len();
    let m = needle.len();
    if m == 0 {
        assert(hay@.subrange(0, 0) =~= needle@);
        assert(occurs_at(hay@, needle@, 0));
        return true;
    }
    if m > n {
        return false;
    }
    let last = n - m;
    let mut i: usize = 0;
    while i <= last
        invariant
            n == hay@.len(),
            m == needle@.len(),
            m > 0,
            last + m == n,
            forall|k: int| 0 <= k < i ==> !occurs_at(hay@, needle@, k),
        decreases last + 1 - i,
    {
        let mut j: usize = 0;
        let mut same = true;
        while j < m
            invariant
                i <= last,
                n == hay@.len(),
                m == needle@.len(),
                last + m == n,
                j <= m,
                same == forall|q: int| 0 <= q < j ==> hay@[i + q] == needle@[q],
            decreases m - j,
        {
            if hay[i + j] != needle[j] {
                same = false;
            }
            j = j + 1;
        }
        if same {
            assert(hay@.subrange(i as int, i + needle@.len()) =~= needle@);
            assert(occurs_at(hay@, needle@, i as int));
            return true;
        }
        proof {
            let q = choose|q: int| 0 <= q < needle@.len() && hay@[i + q] != needle@[q];
            assert(hay@.subrange(i as int, i + needle@.len())[q] != needle@[q]);
        }
        i = i + 1;
    }
    proof {
        assert forall|k: int| 0 <= k && k + needle@.len() <= hay@.len() implies !occurs_at(hay@, needle@, k) by {
            assert(k <= last);
        }
    }
    false
}

/// A file whose name contains the query, ignoring case.
pub open spec fn name_matches(p: Seq<char>, query: Seq<char>) -> bool {
    occurs_in(lowercase(file_name_of(p)), lowercase(query))
}

/// The directories between `p` and `root`: its parent, the parent's parent,
/// and so on, stopping before `root`.
pub open spec fn dirs_up_to(p: Seq<char>, root: Seq<char>) -> Set<Seq<char>>
    decreases p.len(),
{
    match parent_of(p) {
        Some(q) => if q.len() < p.len() && q != root { dirs_up_to(q, root).insert(q) } else { Set::empty() },
        None => Set::empty(),
    }
}

/// A walked path: its path, whether it is a directory, whether it is a file.
pub open spec fn walk_views(w: Seq<(String, bool, bool)>) -> Seq<(Seq<char>, bool, bool)> {
    w.map_values(|e: (String, bool, bool)| (e.0@, e.1, e.2))
}

/// The paths a filename search keeps: each file below `root` whose name
/// matches, and the directories between it and `root`.
pub open spec fn search_hits(w: Seq<(Seq<char>, bool, bool)>, root: Seq<char>, query: Seq<char>) -> Set<Seq<char>>
    decreases w.len(),
{
    if w.len() == 0 {
        Set::empty()
    } else {
        let prev = search_hits(w.drop_last(), root, query);
        let e = w.last();
        if e.0 != root && e.2 && name_matches(e.0, query) { prev.insert(e.0).union(dirs_up_to(e.0, root)) } else { prev }
    }
}

/// The number of components of a relative path.
pub open spec fn component_count(rel: Seq<char>) -> int
    decreases rel.len(),
{
    if rel.len() == 0 {
        0
    } else {
        let c = component_count(rel.drop_last());
        if rel.last() == '/' { c + 1 } else if c == 0 { 1 } else { c }
    }
}

/// The depth of `p` below `root`: its components below it, less one.
pub open spec fn depth_below(p: Seq<char>, root: Seq<char>) -> int {
    match crate::paths::strip_root(p, root) {
        Some(rel) => if component_count(rel) >= 1 { component_count(rel) - 1 } else { 0 },
        None => 0,
    }
}

/// The entry a filename search shows for a walked path (directories expanded).
pub open spec fn search_entry(e: (Seq<char>, bool, bool), root: Seq<char>) -> EntryView {
    EntryView {
        path: e.0,
        depth: depth_below(e.0, root) as usize,
        is_directory: e.1,
        is_expanded: e.1,
        git_status: None,
        is_gitignored: false,
    }
}

/// The entries of a filename search over the walk `w` of `root`: the kept
/// paths in walk order.
pub open spec fn search_listing(w: Seq<(Seq<char>, bool, bool)>, root: Seq<char>, hits: Set<Seq<char>>) -> Seq<EntryView>
    decreases w.len(),
{
    if w.len() == 0 {
        Seq::empty()
    } else {
        let prev = search_listing(w.drop_last(), root, hits);
        let e = w.last();
        if e.0 != root && hits.contains(e.0) { prev.push(search_entry(e, root)) } else { prev }
    }
}

/// Add `p` and the directories between it and `root` to `set`.
fn add_with_dirs(set: &mut Vec<String>, p: &str, root: &str)
    ensures
        crate::git_status::str_set(final(set)@) == crate::git_status::str_set(old(set)@).insert(p@).union(dirs_up_to(p@, root@)),
    decreases p@.len(),
{
    let ghost before = crate::git_status::str_set(set@);
    set.push(crate::text::to_owned_string(p));
    proof {
        assert(crate::git_status::str_set(set@) =~= before.insert(p@)) by {
            assert forall|d: Seq<char>| crate::git_status::str_set(set@).contains(d) <==> before.insert(p@).contains(d) by {
                if crate::git_status::str_set(set@).contains(d) {
                    let i = choose|i: int| 0 <= i < set@.len() && set@[i]@ == d;
                    if i < set@.len() - 1 {
                        assert(old(set)@[i] == set@[i]);
                    }
                }
                if before.contains(d) {
                    let i = choose|i: int| 0 <= i < old(set)@.len() && old(set)@[i]@ == d;
                    assert(set@[i] == old(set)@[i]);
                }
                if d == p@ {
                    assert(set@[set@.len() - 1]@ == p@);
                }
            }
        }
        crate::git_status::lemma_parent_shorter(p@);
    }
    match crate::paths::parent_path(p) {
        Some(q) => {
            if q.as_str().unicode_len() < p.unicode_len() && !crate::text::str_eq(q.as_str(), root) {
                let ghost mid = crate::git_status::str_set(set@);
                add_with_dirs(set, q.as_str(), root);
                proof {
                    assert(dirs_up_to(p@, root@) == dirs_up_to(q@, root@).insert(q@));
                    assert(crate::git_status::str_set(set@) =~= before.insert(p@).union(dirs_up_to(p@, root@)));
                }
            } else {
                proof {
                    assert(dirs_up_to(p@, root@) =~= Set::<Seq<char>>::empty());
                    assert(crate::git_status::str_set(set@) =~= before.insert(p@).union(dirs_up_to(p@, root@)));
                }
            }
        },
        None => {
            proof {
                assert(dirs_up_to(p@, root@) =~= Set::<Seq<char>>::empty());
                assert(crate::git_status::str_set(set@) =~= before.insert(p@).union(dirs_up_to(p@, root@)));
            }
        },
    }
}

/// The number of components of a relative path (see [`component_count`]).
fn count_components(rel: &Vec<char>) -> (r: usize)
    ensures
        r == component_count(rel@),
{
    let mut c: usize = 0;
    let mut i: usize = 0;
    while i < rel.len()
        invariant
            i <= rel@.len(),
            c == component_count(rel@.take(i as int)),
            c <= i,
        decreases rel.len() - i,
    {
        proof {
            let t = rel@.take(i as int + 1);
            assert(t.drop_last() =~= rel@.take(i as int));
        }
        if rel[i] == '/' {
            c = c + 1;
        } else if c == 0 {
            c = 1;
        }
        i = i + 1;
    }
    proof {
        assert(rel@.take(rel@.len() as int) =~= rel@);
    }
    c
}

/// The entries of a filename search for `query` over `walked`, the walk of
/// `root` in display order (path, is a directory, is a file): each file
/// whose name contains the query ignoring case, with the directories
/// between it and the root, in walk order; directories expanded.
pub fn search_files(root: &str, walked: &Vec<(String, bool, bool)>, query: &str) -> (r: Vec<TreeEntry>)
    ensures
        views(r@) == search_listing(walk_views(walked@), root@, search_hits(walk_views(walked@), root@, query@)),
{
    let ghost w = walk_views(walked@);
    let q_lower = chars_of(to_lowercase(query).as_str());
    let mut set: Vec<String> = Vec::new();
    let mut i: usize = 0;
    assert(crate::git_status::str_set(set@) =~= Set::<Seq<char>>::empty());
    while i < walked.len()
        invariant
            i <= walked@.len(),
            w == walk_views(walked@),
            q_lower@ == lowercase(query@),
            crate::git_status::str_set(set@) == search_hits(w.take(i as int), root@, query@),
        decreases walked.len() - i,
    {
        proof {
            let t = w.take(i as int + 1);
            assert(t.drop_last() =~= w.take(i as int));
            assert(t.last() == w[i as int]);
        }
        let (p, _is_dir, is_file) = &walked[i];
        if !crate::text::str_eq(p.as_str(), root) && *is_file {
            let name = file_name(p.as_str());
            let name_lower = chars_of(to_lowercase(name.as_str()).as_str());
            if chars_contain(&name_lower, &q_lower) {
                add_with_dirs(&mut set, p.as_str(), root);
            }
        }
        i = i + 1;
    }
    proof {
        assert(w.take(w.len() as int) =~= w);
    }
    let ghost hits = crate::git_status::str_set(set@);
    let mut out: Vec<TreeEntry> = Vec::new();
    let mut k: usize = 0;
    while k < walked.len()
        invariant
            k <= walked@.len(),
            w == walk_views(walked@),
            hits == crate::git_status::str_set(set@),
            views(out@) == search_listing(w.take(k as int), root@, hits),
        decreases walked.len() - k,
    {
        proof {
            let t = w.take(k as int + 1);
            assert(t.drop_last() =~= w.take(k as int));
            assert(t.last() == w[k as int]);
        }
        let (p, is_dir, _is_file) = &walked[k];
        if !crate::text::str_eq(p.as_str(), root) && crate::git_status::contains_str(&set, p.as_str()) {
            let rel = crate::paths::display_path(p.as_str(), root);
            let depth: usize = if crate::paths::is_below(p.as_str(), root) {
                let n = count_components(&chars_of(rel.as_str()));
                if n >= 1 { n - 1 } else { 0 }
            } else {
                0
            };
            let ghost before = views(out@);
            out.push(TreeEntry {
                path: p.clone(),
                depth,
                is_directory: *is_dir,
                is_expanded: *is_dir,
                git_status: None,
                is_gitignored: false,
            });
            proof {
                assert(views(out@) =~= before.push(out@.last()@));
            }
        }
        k = k + 1;
    }
    proof {
        assert(w.take(w.len() as int) =~= w);
    }
    out
}

/// A single match from searching file contents.
#[derive(Debug, Clone, PartialEq)]
pub struct ContentMatch {
    pub file: String,
    /// 1-indexed.
    pub line_number: usize,
    /// Trimmed line content.
    pub line_text: String,
}

/// The plain view of a content match: file, line number, text.
pub open spec fn match_view(m: ContentMatch) -> (Seq<char>, usize, Seq<char>) {
    (m.file@, m.line_number, m.line_text@)
}

/// The matches of `query` (ignoring case) among `lines` of `file`, each with
/// its 1-indexed line number and trimmed text, in order.
pub open spec fn line_hits(file: Seq<char>, lines: Seq<Seq<char>>, query: Seq<char>) -> Seq<(Seq<char>, usize, Seq<char>)>
    decreases lines.len(),
{
    if lines.len() == 0 {
        Seq::empty()
    } else {
        let prev = line_hits(file, lines.drop_last(), query);
        if occurs_in(lowercase(lines.last()), lowercase(query)) {
            prev.push((file, lines.len() as usize, crate::diff::trimmed(lines.last())))
        } else {
            prev
        }
    }
}

/// The first `room` matches of `query` among the lines of `file`, none for
/// a binary file: one whose first bytes `head` hold a null byte among the
/// first [`crate::file_viewer::content::BINARY_CHECK_BYTES`].
pub open spec fn file_hits(file: Seq<char>, head: Seq<u8>, lines: Seq<Seq<char>>, query: Seq<char>, room: nat) -> Seq<(Seq<char>, usize, Seq<char>)> {
    if crate::file_viewer::content::binary_data(head) {
        Seq::empty()
    } else {
        let h = line_hits(file, lines, query);
        if h.len() <= room { h } else { h.take(room as int) }
    }
}

proof fn lemma_line_hits_len(file: Seq<char>, lines: Seq<Seq<char>>, query: Seq<char>)
    ensures
        line_hits(file, lines, query).len() <= lines.len(),
    decreases lines.len(),
{
    if lines.len() > 0 {
        lemma_line_hits_len(file, lines.drop_last(), query);
    }
}

/// Search the lines of `file` for `query` (a substring match ignoring case),
/// returning at most `room` matches: the per-file step of a content search.
/// `head` holds the file's first bytes; a null byte among the first 512 of
/// them marks the file binary, and it gives no matches.
pub fn content_matches(file: &str, head: &[u8], lines: &[String], query: &str, room: usize) -> (r: Vec<ContentMatch>)
    ensures
        r@.map_values(|m: ContentMatch| match_view(m)) == file_hits(file@, head@, crate::comments::lines_view(lines@), query@, room as nat),
{
    let ghost lv = crate::comments::lines_view(lines@);
    let mut out: Vec<ContentMatch> = Vec::new();
    if crate::file_viewer::content::is_binary(head) {
        assert(out@.map_values(|m: ContentMatch| match_view(m)) =~= Seq::<(Seq<char>, usize, Seq<char>)>::empty());
        return out;
    }
    let q_lower = chars_of(to_lowercase(query).as_str());
    let mut i: usize = 0;
    while i < lines.len() && out.len() < room
        invariant
            i <= lines@.len(),
            lv == crate::comments::lines_view(lines@),
            q_lower@ == lowercase(query@),
            out@.map_values(|m: ContentMatch| match_view(m)) == line_hits(file@, lv.take(i as int), query@),
            out@.len() <= room,
        decreases lines.len() - i,
    {
        proof {
            let t = lv.take(i as int + 1);
            assert(t.drop_last() =~= lv.take(i as int));
            assert(t.last() == lines@[i as int]@);
            lemma_line_hits_len(file@, lv.take(i as int), query@);
        }
        let line_lower = chars_of(to_lowercase(lines[i].as_str()).as_str());
        if chars_contain(&line_lower, &q_lower) {
            let ghost before = out@.map_values(|m: ContentMatch| match_view(m));
            out.push(ContentMatch {
                file: crate::text::to_owned_string(file),
                line_number: i + 1,
                line_text: crate::diff::trim_whitespace(lines[i].as_str()),
            });
            proof {
                assert(out@.map_values(|m: ContentMatch| match_view(m)) =~= before.push(match_view(out@.last())));
            }
        }
        i = i + 1;
    }
    proof {
        let h = line_hits(file@, lv, query@);
        lemma_line_hits_prefix(file@, lv, query@, i as int);
        if i == lines@.len() {
            assert(lv.take(i as int) =~= lv);
        }
    }
    out
}

/// Files larger than this many bytes are left out of a content search.
pub const MAX_SEARCH_FILE_SIZE: u64 = 1_048_576;

/// The plain views of a list of matches.
pub open spec fn matches_view(s: Seq<ContentMatch>) -> Seq<(Seq<char>, usize, Seq<char>)> {
    s.map_values(|m: ContentMatch| match_view(m))
}

/// A file met by a content search: its path, its size in bytes, its first
/// bytes and its lines.
pub type SearchedFile = (Seq<char>, u64, Seq<u8>, Seq<Seq<char>>);

/// The matches after a content search that had `found` meets one more file:
/// while fewer than `max_matches` are found and the file is at most
/// [`MAX_SEARCH_FILE_SIZE`] bytes, its matches are added, up to the room
/// left; otherwise nothing changes.
pub open spec fn search_step(found: Seq<(Seq<char>, usize, Seq<char>)>, f: SearchedFile, query: Seq<char>, max_matches: usize)
    -> Seq<(Seq<char>, usize, Seq<char>)>
{
    if found.len() < max_matches && f.1 <= MAX_SEARCH_FILE_SIZE {
        found + file_hits(f.0, f.2, f.3, query, (max_matches - found.len()) as nat)
    } else {
        found
    }
}

/// The matches of a content search over `files`, in the order met.
pub open spec fn search_all(files: Seq<SearchedFile>, query: Seq<char>, max_matches: usize) -> Seq<(Seq<char>, usize, Seq<char>)>
    decreases files.len(),
{
    if files.len() == 0 {
        Seq::empty()
    } else {
        search_step(search_all(files.drop_last(), query, max_matches), files.last(), query, max_matches)
    }
}

/// Whether a content search that has found `found` matches, of at most
/// `max_matches`, reads a file of `size` bytes: only while there is room,
/// and only a file of at most [`MAX_SEARCH_FILE_SIZE`] bytes.
pub fn file_searched(found: usize, max_matches: usize, size: u64) -> (r: bool)
    ensures
        r == (found < max_matches && size <= MAX_SEARCH_FILE_SIZE),
{
    found < max_matches && size <= MAX_SEARCH_FILE_SIZE
}

/// Whether a content search has found all the matches it may return, so
/// that no further file needs to be visited.
pub fn search_full(found: usize, max_matches: usize) -> (r: bool)
    ensures
        r == (found >= max_matches),
{
    found >= max_matches
}

/// One file of a content search over many (see [`search_step`]): the
/// matches of `file` (of `size` bytes, first bytes `head`) are added to
/// `found` while there is room and the file is small enough.
pub fn add_file_matches(found: &mut Vec<ContentMatch>, file: &str, size: u64, head: &[u8], lines: &[String], query: &str, max_matches: usize)
    ensures
        matches_view(final(found)@) == search_step(matches_view(old(found)@), (file@, size, head@, crate::comments::lines_view(lines@)), query@, max_matches),
        old(found)@.len() <= max_matches ==> final(found)@.len() <= max_matches,
{
    if file_searched(found.len(), max_matches, size) {
        let room = max_matches - found.len();
        let mut more = content_matches(file, head, lines, query, room);
        let ghost before = found@;
        let ghost added = more@;
        found.append(&mut more);
        assert(matches_view(found@) =~= matches_view(before) + matches_view(added));
    }
}

/// Every match of `line_hits` is in `file`.
proof fn lemma_line_hits_file(file: Seq<char>, lines: Seq<Seq<char>>, query: Seq<char>)
    ensures
        forall|i: int| 0 <= i < line_hits(file, lines, query).len() ==> (#[trigger] line_hits(file, lines, query)[i]).0 == file,
    decreases lines.len(),
{
    if lines.len() > 0 {
        lemma_line_hits_file(file, lines.drop_last(), query);
        let prev = line_hits(file, lines.drop_last(), query);
        let h = line_hits(file, lines, query);
        assert forall|i: int| 0 <= i < h.len() implies (#[trigger] h[i]).0 == file by {
            if i < prev.len() {
                assert(h[i] == prev[i]);
            }
        }
    }
}

/// A content search returns at most `max_matches` matches, and each comes
/// from a file it met that is at most [`MAX_SEARCH_FILE_SIZE`] bytes long.
pub proof fn law_search_within_limits(files: Seq<SearchedFile>, query: Seq<char>, max_matches: usize)
    ensures
        search_all(files, query, max_matches).len() <= max_matches,
        forall|k: int| 0 <= k < search_all(files, query, max_matches).len() ==> exists|j: int|
            0 <= j < files.len() && files[j].0 == (#[trigger] search_all(files, query, max_matches)[k]).0
                && files[j].1 <= MAX_SEARCH_FILE_SIZE,
    decreases files.len(),
{
    if files.len() > 0 {
        let d = files.drop_last();
        let f = files.last();
        law_search_within_limits(d, query, max_matches);
        let prev = search_all(d, query, max_matches);
        let all = search_all(files, query, max_matches);
        if prev.len() < max_matches && f.1 <= MAX_SEARCH_FILE_SIZE {
            let h = file_hits(f.0, f.2, f.3, query, (max_matches - prev.len()) as nat);
            lemma_line_hits_file(f.0, f.3, query);
            assert forall|k: int| 0 <= k < all.len() implies exists|j: int|
                0 <= j < files.len() && files[j].0 == (#[trigger] all[k]).0 && files[j].1 <= MAX_SEARCH_FILE_SIZE by {
                if k < prev.len() {
                    assert(all[k] == prev[k]);
                    let j = choose|j: int| 0 <= j < d.len() && d[j].0 == prev[k].0 && d[j].1 <= MAX_SEARCH_FILE_SIZE;
                    assert(files[j] == d[j]);
                } else {
                    assert(all[k] == h[k - prev.len()]);
                    let lh = line_hits(f.0, f.3, query);
                    if !crate::file_viewer::content::binary_data(f.2) && lh.len() > (max_matches - prev.len()) {
                        assert(h[k - prev.len()] == lh[k - prev.len()]);
                    }
                    assert(files[files.len() - 1] == f);
                }
            }
        } else {
            assert forall|k: int| 0 <= k < all.len() implies exists|j: int|
                0 <= j < files.len() && files[j].0 == (#[trigger] all[k]).0 && files[j].1 <= MAX_SEARCH_FILE_SIZE by {
                let j = choose|j: int| 0 <= j < d.len() && d[j].0 == prev[k].0 && d[j].1 <= MAX_SEARCH_FILE_SIZE;
                assert(files[j] == d[j]);
            }
        }
    }
}

proof fn lemma_line_hits_prefix(file: Seq<char>, lines: Seq<Seq<char>>, query: Seq<char>, j: int)
    requires
        0 <= j <= lines.len(),
    ensures
        line_hits(file, lines.take(j), query).len() <= line_hits(file, lines, query).len(),
        line_hits(file, lines, query).take(line_hits(file, lines.take(j), query).len() as int) == line_hits(file, lines.take(j), query),
    decreases lines.len() - j,
{
    if j < lines.len() {
        lemma_line_hits_prefix(file, lines, query, j + 1);
        let t = lines.take(j + 1);
        assert(t.drop_last() =~= lines.take(j));
        let a = line_hits(file, lines.take(j), query);
        let b = line_hits(file, t, query);
        let c = line_hits(file, lines, query);
        assert(c.take(a.len() as int) =~= b.take(a.len() as int));
        assert(b.take(a.len() as int) =~= a);
    } else {
        assert(lines.take(j) =~= lines);
        let c = line_hits(file, lines, query);
        assert(c.take(c.len() as int) =~= c);
    }
}

} // verus!
