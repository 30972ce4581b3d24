//! Line-level and unified diffs of a file against its committed version.
use vstd::prelude::*;
use crate::text::{white_space, push_char};

verus! {

/// The kind of change for a single line in the working tree relative to HEAD.
#[derive(Debug, Clone, Copy, PartialEq, Eq, Structural)]
pub enum DiffLineKind {
    /// Line is unchanged.
    Unchanged,
    /// Line was added (new line not in HEAD).
    Added,
    /// Line was modified (content differs from HEAD).
    Modified,
}

/// Per-line diff information for gutter markers in normal (full file) mode.
#[derive(Debug, Clone)]
pub struct LineDiff {
    /// One entry per line in the working tree file, indicating its change status.
    pub lines: Vec<DiffLineKind>,
}

impl LineDiff {
    /// The diff kind of 1-indexed line `line_number`; lines outside the file
    /// count as unchanged.
    pub fn line_kind(&self, line_number: usize) -> (r: DiffLineKind)
        ensures
            r == (if 1 <= line_number <= self.lines@.len() {
                self.lines@[line_number - 1]
            } else {
                DiffLineKind::Unchanged
            }),
    {
        if line_number == 0 || line_number > self.lines.len() {
            return DiffLineKind::Unchanged;
        }
        self.lines[line_number - 1]
    }
}

/// A single line in a unified diff.
#[derive(Debug, Clone, PartialEq, Eq)]
pub enum UnifiedDiffLine {
    /// Context line (unchanged).
    Context(String),
    /// Added line.
    Added(String),
    /// Removed line.
    Removed(String),
    /// Hunk header (e.g., @@ -10,5 +10,7 @@).
    HunkHeader(String),
}

/// What a unified diff line holds, as characters.
pub ghost enum DiffLineView {
    Context(Seq<char>),
    Added(Seq<char>),
    Removed(Seq<char>),
    HunkHeader(Seq<char>),
}

impl View for UnifiedDiffLine {
    type V = DiffLineView;

    open spec fn view(&self) -> DiffLineView {
        match self {
            UnifiedDiffLine::Context(s) => DiffLineView::Context(s@),
            UnifiedDiffLine::Added(s) => DiffLineView::Added(s@),
            UnifiedDiffLine::Removed(s) => DiffLineView::Removed(s@),
            UnifiedDiffLine::HunkHeader(s) => DiffLineView::HunkHeader(s@),
        }
    }
}

/// Parsed unified diff for diff mode display.
#[derive(Debug, Clone)]
pub struct UnifiedDiff {
    pub lines: Vec<UnifiedDiffLine>,
}

/// A line of a diff hunk as libgit2 reports it.
pub struct PatchLine {
    /// `'+'` for an added line, `'-'` for a removed one, `' '` for context.
    pub origin: char,
    /// The line's number in the new file, when it has one.
    pub new_lineno: Option<u32>,
    pub content: Vec<u8>,
}

/// A hunk of a diff: its header and lines.
pub struct PatchHunk {
    pub header: Vec<u8>,
    pub lines: Vec<PatchLine>,
}

/// What a patch line holds.
pub ghost struct PatchLineView {
    pub origin: char,
    pub new_lineno: Option<u32>,
    pub content: Seq<u8>,
}

/// What a hunk holds.
pub ghost struct PatchHunkView {
    pub header: Seq<u8>,
    pub lines: Seq<PatchLineView>,
}

impl View for PatchLine {
    type V = PatchLineView;

    open spec fn view(&self) -> PatchLineView {
        PatchLineView { origin: self.origin, new_lineno: self.new_lineno, content: self.content@ }
    }
}

impl View for PatchHunk {
    type V = PatchHunkView;

    open spec fn view(&self) -> PatchHunkView {
        PatchHunkView { header: self.header@, lines: self.lines@.map_values(|l: PatchLine| l@) }
    }
}

/// The views of a list of hunks.
pub open spec fn hunk_views(hs: Seq<PatchHunk>) -> Seq<PatchHunkView> {
    hs.map_values(|h: PatchHunk| h@)
}

/// The hunks libgit2 finds between two buffers (3 lines of context), or
/// `None` when it reports an error.
pub uninterp spec fn buffer_patch(old: Seq<u8>, new: Seq<u8>) -> Option<Seq<PatchHunkView>>;

/// The hunks of the diff between `old` and `new`.
///
/// Trusted: calls `git2::Patch::from_buffers` with 3 lines of context (the
/// libgit2 default) and reads its hunks and lines; what it returns depends on
/// the two buffers alone, and the contract names it.
#[verifier::external_body]
fn patch_from_buffers(old: &[u8], new: &[u8]) -> (r: Option<Vec<PatchHunk>>)
    ensures
        match r {
            Some(hs) => buffer_patch(old@, new@) == Some(hunk_views(hs@)),
            None => buffer_patch(old@, new@) is None,
        },
{
    let mut opts = git2::DiffOptions::new();
    opts.context_lines(3);
    let patch = git2::Patch::from_buffers(old, None, new, None, Some(&mut opts)).ok()?;
    (0..patch.num_hunks()).map(|h| {
        let (hunk, n) = patch.hunk(h).ok()?;
        let lines = (0..n).map(|l| patch.line_in_hunk(h, l).ok().map(|x|
            PatchLine { origin: x.origin(), new_lineno: x.new_lineno(), content: x.content().to_vec() }))
            .collect::<Option<Vec<PatchLine>>>()?;
        Some(PatchHunk { header: hunk.header().to_vec(), lines })
    }).collect()
}

/// The new-file line numbers of the added lines of a hunk, in order.
pub open spec fn added_linenos(ls: Seq<PatchLineView>) -> Seq<u32>
    decreases ls.len(),
{
    if ls.len() == 0 {
        Seq::empty()
    } else {
        let r = added_linenos(ls.drop_last());
        if ls.last().origin == '+' && ls.last().new_lineno is Some { r.push(ls.last().new_lineno->0) } else { r }
    }
}

/// The number of removed lines of a hunk.
pub open spec fn removal_count(ls: Seq<PatchLineView>) -> nat
    decreases ls.len(),
{
    if ls.len() == 0 {
        0
    } else {
        removal_count(ls.drop_last()) + if ls.last().origin == '-' { 1nat } else { 0nat }
    }
}

/// The kinds after marking the added lines `adds` of a hunk: the first `m`
/// of them replace removed lines (modified), the rest are new (added).
/// Numbers outside the file are ignored.
pub open spec fn mark_additions(kinds: Seq<DiffLineKind>, adds: Seq<u32>, m: int) -> Seq<DiffLineKind>
    decreases adds.len(),
{
    if adds.len() == 0 {
        kinds
    } else {
        let r = mark_additions(kinds, adds.drop_last(), m);
        let n = adds.last() as int;
        if 1 <= n && n - 1 < r.len() {
            r.update(n - 1, if adds.len() - 1 < m { DiffLineKind::Modified } else { DiffLineKind::Added })
        } else {
            r
        }
    }
}

/// The kind of each of `n` lines of the new file from the hunks of its diff:
/// added lines that replace removed lines of their hunk are modified, the
/// other added lines added, all else unchanged.
pub open spec fn classify_hunks(hs: Seq<PatchHunkView>, n: nat) -> Seq<DiffLineKind>
    decreases hs.len(),
{
    if hs.len() == 0 {
        Seq::new(n, |i: int| DiffLineKind::Unchanged)
    } else {
        let h = hs.last();
        let adds = added_linenos(h.lines);
        let m = if removal_count(h.lines) <= adds.len() { removal_count(h.lines) as int } else { adds.len() as int };
        mark_additions(classify_hunks(hs.drop_last(), n), adds, m)
    }
}

proof fn lemma_removal_count_le(ls: Seq<PatchLineView>)
    ensures
        removal_count(ls) <= ls.len(),
    decreases ls.len(),
{
    if ls.len() > 0 {
        lemma_removal_count_le(ls.drop_last());
    }
}

proof fn lemma_mark_additions_len(kinds: Seq<DiffLineKind>, adds: Seq<u32>, m: int)
    ensures
        mark_additions(kinds, adds, m).len() == kinds.len(),
    decreases adds.len(),
{
    if adds.len() > 0 {
        lemma_mark_additions_len(kinds, adds.drop_last(), m);
    }
}

proof fn lemma_classify_len(hs: Seq<PatchHunkView>, n: nat)
    ensures
        classify_hunks(hs, n).len() == n,
    decreases hs.len(),
{
    if hs.len() > 0 {
        lemma_classify_len(hs.drop_last(), n);
        let h = hs.last();
        let adds = added_linenos(h.lines);
        let m = if removal_count(h.lines) <= adds.len() { removal_count(h.lines) as int } else { adds.len() as int };
        lemma_mark_additions_len(classify_hunks(hs.drop_last(), n), adds, m);
    }
}

/// The new-file line number of the `k`-th added line of hunk `j`.
pub open spec fn added_line_at(hs: Seq<PatchHunkView>, j: int, k: int) -> u32 {
    added_linenos(hs[j].lines)[k]
}

/// No new-file line is added twice across the hunks, as in any diff.
pub open spec fn distinct_added_lines(hs: Seq<PatchHunkView>) -> bool {
    forall|j1: int, k1: int, j2: int, k2: int|
        0 <= j1 < hs.len() && 0 <= j2 < hs.len()
            && 0 <= k1 < added_linenos(hs[j1].lines).len() && 0 <= k2 < added_linenos(hs[j2].lines).len()
            && (j1 != j2 || k1 != k2)
            ==> #[trigger] added_line_at(hs, j1, k1) != #[trigger] added_line_at(hs, j2, k2)
}

proof fn lemma_mark_at(kinds: Seq<DiffLineKind>, adds: Seq<u32>, m: int, k: int)
    requires
        0 <= k < adds.len(),
        1 <= adds[k] <= kinds.len(),
        forall|a: int, b: int| 0 <= a < b < adds.len() ==> adds[a] != adds[b],
    ensures
        mark_additions(kinds, adds, m)[adds[k] - 1] == (if k < m { DiffLineKind::Modified } else { DiffLineKind::Added }),
    decreases adds.len(),
{
    let d = adds.drop_last();
    lemma_mark_additions_len(kinds, d, m);
    let last = adds.len() - 1;
    if k < last {
        assert forall|a: int, b: int| 0 <= a < b < d.len() implies d[a] != d[b] by {
            assert(d[a] == adds[a] && d[b] == adds[b]);
        }
        assert(d[k] == adds[k]);
        lemma_mark_at(kinds, d, m, k);
        assert(adds[k] != adds[last]);
    }
}

proof fn lemma_mark_other(kinds: Seq<DiffLineKind>, adds: Seq<u32>, m: int, p: int)
    requires
        0 <= p < kinds.len(),
        forall|i: int| 0 <= i < adds.len() ==> adds[i] as int != p + 1,
    ensures
        mark_additions(kinds, adds, m)[p] == kinds[p],
    decreases adds.len(),
{
    if adds.len() > 0 {
        let d = adds.drop_last();
        assert forall|i: int| 0 <= i < d.len() implies d[i] as int != p + 1 by {
            assert(d[i] == adds[i]);
        }
        lemma_mark_other(kinds, d, m, p);
        lemma_mark_additions_len(kinds, d, m);
        assert(adds[adds.len() - 1] as int != p + 1);
    }
}

proof fn lemma_distinct_prefix(hs: Seq<PatchHunkView>)
    requires
        hs.len() > 0,
        distinct_added_lines(hs),
    ensures
        distinct_added_lines(hs.drop_last()),
{
    let d = hs.drop_last();
    assert forall|j1: int, k1: int, j2: int, k2: int|
        0 <= j1 < d.len() && 0 <= j2 < d.len()
            && 0 <= k1 < added_linenos(d[j1].lines).len() && 0 <= k2 < added_linenos(d[j2].lines).len()
            && (j1 != j2 || k1 != k2)
        implies #[trigger] added_line_at(d, j1, k1) != #[trigger] added_line_at(d, j2, k2) by {
        assert(d[j1] == hs[j1] && d[j2] == hs[j2]);
        assert(added_line_at(hs, j1, k1) != added_line_at(hs, j2, k2));
    }
}

/// In the line diff of a file, each added line of a hunk with `r` removed
/// lines is modified when it is among the hunk's first `r` added lines (it
/// replaces a removed line), and added otherwise.
pub proof fn law_classify_added_line(hs: Seq<PatchHunkView>, n: nat, j: int, k: int)
    requires
        distinct_added_lines(hs),
        0 <= j < hs.len(),
        0 <= k < added_linenos(hs[j].lines).len(),
        1 <= added_linenos(hs[j].lines)[k] <= n,
    ensures
        classify_hunks(hs, n)[added_linenos(hs[j].lines)[k] - 1]
            == (if k < removal_count(hs[j].lines) { DiffLineKind::Modified } else { DiffLineKind::Added }),
    decreases hs.len(),
{
    let last = hs.len() - 1;
    let h = hs.last();
    let adds = added_linenos(h.lines);
    let d = hs.drop_last();
    let prev = classify_hunks(d, n);
    lemma_classify_len(d, n);
    let m = if removal_count(h.lines) <= adds.len() { removal_count(h.lines) as int } else { adds.len() as int };
    let line = added_linenos(hs[j].lines)[k];
    if j == last {
        assert forall|a: int, b: int| 0 <= a < b < adds.len() implies adds[a] != adds[b] by {
            assert(added_line_at(hs, last, a) != added_line_at(hs, last, b));
        }
        lemma_mark_at(prev, adds, m, k);
    } else {
        assert forall|i: int| 0 <= i < adds.len() implies adds[i] as int != line as int by {
            assert(added_line_at(hs, last, i) != added_line_at(hs, j, k));
        }
        lemma_mark_other(prev, adds, m, line - 1);
        lemma_distinct_prefix(hs);
        assert(d[j] == hs[j]);
        law_classify_added_line(d, n, j, k);
    }
}

/// In the line diff of a file of `n` lines, every line is classified, and a
/// line that no hunk adds is unchanged.
pub proof fn law_classify_unchanged_line(hs: Seq<PatchHunkView>, n: nat, p: int)
    requires
        0 <= p < n,
        forall|j: int, k: int| 0 <= j < hs.len() && 0 <= k < added_linenos(hs[j].lines).len()
            ==> #[trigger] added_line_at(hs, j, k) as int != p + 1,
    ensures
        classify_hunks(hs, n).len() == n,
        classify_hunks(hs, n)[p] == DiffLineKind::Unchanged,
    decreases hs.len(),
{
    lemma_classify_len(hs, n);
    if hs.len() > 0 {
        let last = hs.len() - 1;
        let h = hs.last();
        let adds = added_linenos(h.lines);
        let d = hs.drop_last();
        lemma_classify_len(d, n);
        let m = if removal_count(h.lines) <= adds.len() { removal_count(h.lines) as int } else { adds.len() as int };
        assert forall|i: int| 0 <= i < adds.len() implies adds[i] as int != p + 1 by {
            assert(added_line_at(hs, last, i) as int != p + 1);
        }
        lemma_mark_other(classify_hunks(d, n), adds, m, p);
        assert forall|j: int, k: int| 0 <= j < d.len() && 0 <= k < added_linenos(d[j].lines).len()
            implies #[trigger] added_line_at(d, j, k) as int != p + 1 by {
            assert(d[j] == hs[j]);
            assert(added_line_at(hs, j, k) as int != p + 1);
        }
        law_classify_unchanged_line(d, n, p);
    }
}

/// The kind of each of `n` lines of the new file from the hunks of its diff
/// (see [`classify_hunks`]).
pub fn classify_lines(hunks: &Vec<PatchHunk>, n: usize) -> (r: Vec<DiffLineKind>)
    ensures
        r@ == classify_hunks(hunk_views(hunks@), n as nat),
{
    let ghost hv = hunk_views(hunks@);
    let mut result: Vec<DiffLineKind> = Vec::new();
    let mut k: usize = 0;
    while k < n
        invariant
            k <= n,
            result@ == Seq::new(k as nat, |i: int| DiffLineKind::Unchanged),
        decreases n - k,
    {
        result.push(DiffLineKind::Unchanged);
        k = k + 1;
        assert(result@ =~= Seq::new(k as nat, |i: int| DiffLineKind::Unchanged));
    }
    let mut h: usize = 0;
    while h < hunks.len()
        invariant
            h <= hunks@.len(),
            hv == hunk_views(hunks@),
            result@ == classify_hunks(hv.take(h as int), n as nat),
        decreases hunks.len() - h,
    {
        let hunk = &hunks[h];
        let ghost lv = hunk@.lines;
        let mut removals: usize = 0;
        let mut adds: Vec<u32> = Vec::new();
        let mut l: usize = 0;
        while l < hunk.lines.len()
            invariant
                l <= hunk.lines@.len(),
                lv == hunk@.lines,
                removals == removal_count(lv.take(l as int)),
                adds@ == added_linenos(lv.take(l as int)),
                removals <= l,
            decreases hunk.lines.len() - l,
        {
            proof {
                let t = lv.take(l as int + 1);
                assert(t.drop_last() =~= lv.take(l as int));
                assert(t.last() == hunk.lines@[l as int]@);
            }
            let line = &hunk.lines[l];
            if line.origin == '+' {
                if let Some(n) = line.new_lineno {
                    adds.push(n);
                }
            } else if line.origin == '-' {
                removals = removals + 1;
            }
            l = l + 1;
        }
        proof {
            assert(lv.take(lv.len() as int) =~= lv);
        }
        let m = if removals <= adds.len() { removals } else { adds.len() };
        let ghost base = result@;
        let mut i: usize = 0;
        while i < adds.len()
            invariant
                i <= adds@.len(),
                m <= adds@.len(),
                result@ == mark_additions(base, adds@.take(i as int), m as int),
                result@.len() == base.len(),
            decreases adds.len() - i,
        {
            proof {
                let t = adds@.take(i as int + 1);
                assert(t.drop_last() =~= adds@.take(i as int));
                assert(t.last() == adds@[i as int]);
            }
            let lineno = adds[i];
            if lineno >= 1 {
                let idx = (lineno - 1) as usize;
                if idx < result.len() {
                    result.set(idx, if i < m { DiffLineKind::Modified } else { DiffLineKind::Added });
                }
            }
            i = i + 1;
        }
        proof {
            assert(adds@.take(adds@.len() as int) =~= adds@);
            let t = hv.take(h as int + 1);
            assert(t.drop_last() =~= hv.take(h as int));
            assert(t.last() == hunks@[h as int]@);
        }
        h = h + 1;
    }
    proof {
        assert(hv.take(hv.len() as int) =~= hv);
    }
    result
}

/// The number of lines of a text as `str::lines` counts them: one per
/// newline, plus a last line without one.
pub open spec fn line_count(s: Seq<char>) -> nat
    decreases s.len(),
{
    if s.len() == 0 {
        0
    } else if s.len() == 1 {
        1
    } else {
        line_count(s.drop_last()) + if s[s.len() - 2] == '\n' { 1nat } else { 0nat }
    }
}

/// Count the lines of `s` (see [`line_count`]).
pub fn count_lines(s: &str) -> (r: usize)
    ensures
        r == line_count(s@),
{
    let cs = crate::text::chars_of(s);
    let mut n: usize = 0;
    let mut i: usize = 0;
    while i < cs.len()
        invariant
            i <= cs@.len(),
            cs@ == s@,
            n == line_count(cs@.take(i as int)),
            n <= i,
        decreases cs.len() - i,
    {
        proof {
            let t = cs@.take(i as int + 1);
            assert(t.drop_last() =~= cs@.take(i as int));
            if i >= 1 {
                assert(t[t.len() - 2] == cs@[i - 1]);
            }
        }
        if i == 0 || cs[i - 1] == '\n' {
            n = n + 1;
        }
        i = i + 1;
    }
    proof {
        assert(cs@.take(cs@.len() as int) =~= cs@);
    }
    n
}

/// The line diff of a file whose working-tree text is `working` against its
/// committed text `committed`: every line added when there is no committed
/// text (an untracked or new file), else the lines classified from the
/// hunks between the two; `None` when the diff fails.
pub fn compute_line_diff(committed: Option<&str>, working: &str) -> (r: Option<LineDiff>)
    ensures
        match committed {
            None => r is Some && r->0.lines@ == Seq::new(line_count(working@), |i: int| DiffLineKind::Added),
            Some(c) => match buffer_patch(vstd::utf8::encode_utf8(c@), vstd::utf8::encode_utf8(working@)) {
                None => r is None,
                Some(hs) => r is Some && r->0.lines@ == classify_hunks(hs, line_count(working@)),
            },
        },
{
    let n = count_lines(working);
    match committed {
        None => {
            let mut lines: Vec<DiffLineKind> = Vec::new();
            let mut k: usize = 0;
            while k < n
                invariant
                    k <= n,
                    lines@ == Seq::new(k as nat, |i: int| DiffLineKind::Added),
                decreases n - k,
            {
                lines.push(DiffLineKind::Added);
                k = k + 1;
                assert(lines@ =~= Seq::new(k as nat, |i: int| DiffLineKind::Added));
            }
            Some(LineDiff { lines })
        },
        Some(c) => {
            match patch_from_buffers(c.as_bytes(), working.as_bytes()) {
                None => None,
                Some(hunks) => Some(LineDiff { lines: classify_lines(&hunks, n) }),
            }
        },
    }
}

/// The text of some bytes decoded as UTF-8, invalid sequences replaced.
pub uninterp spec fn lossy_utf8(bytes: Seq<u8>) -> Seq<char>;

/// Decode bytes as UTF-8, replacing invalid sequences.
///
/// Trusted: calls `String::from_utf8_lossy`, whose result depends on the
/// bytes alone; the contract names it and states what std documents for
/// valid UTF-8: the decoded text, nothing replaced.
#[verifier::external_body]
pub(crate) fn decode_lossy(bytes: &[u8]) -> (r: String)
    ensures
        r@ == lossy_utf8(bytes@),
        vstd::utf8::valid_utf8(bytes@) ==> r@ == vstd::utf8::decode_utf8(bytes@),
{
    String::from_utf8_lossy(bytes).into_owned()
}

/// `s` without leading and trailing whitespace.
pub open spec fn trimmed(s: Seq<char>) -> Seq<char>
    decreases s.len(),
{
    if s.len() > 0 && white_space(s[0]) {
        trimmed(s.skip(1))
    } else if s.len() > 0 && white_space(s.last()) {
        trimmed(s.drop_last())
    } else {
        s
    }
}

/// `s` without trailing newlines.
pub open spec fn without_trailing_newlines(s: Seq<char>) -> Seq<char>
    decreases s.len(),
{
    if s.len() > 0 && s.last() == '\n' { without_trailing_newlines(s.drop_last()) } else { s }
}

/// The characters `a..b` of `cs` as a string.
fn substring(cs: &Vec<char>, a: usize, b: usize) -> (r: String)
    requires
        a <= b <= cs@.len(),
    ensures
        r@ == cs@.subrange(a as int, b as int),
{
    let mut r = String::new();
    let mut i = a;
    assert(r@ =~= cs@.subrange(a as int, i as int));
    while i < b
        invariant
            a <= i <= b,
            b <= cs@.len(),
            r@ == cs@.subrange(a as int, i as int),
        decreases b - i,
    {
        push_char(&mut r, cs[i]);
        i = i + 1;
        assert(r@ =~= cs@.subrange(a as int, i as int));
    }
    r
}

/// Remove leading and trailing whitespace (see [`trimmed`]).
pub fn trim_whitespace(s: &str) -> (r: String)
    ensures
        r@ == trimmed(s@),
{
    let cs = crate::text::chars_of(s);
    let mut a: usize = 0;
    let mut b: usize = cs.len();
    assert(cs@.subrange(0, cs@.len() as int) =~= s@);
    while a < b && crate::text::is_white_space(cs[a])
        invariant
            a <= b <= cs@.len(),
            cs@ == s@,
            b == cs@.len(),
            trimmed(cs@.subrange(a as int, b as int)) == trimmed(s@),
        decreases b - a,
    {
        proof {
            let t = cs@.subrange(a as int, b as int);
            assert(t.skip(1) =~= cs@.subrange(a + 1, b as int));
        }
        a = a + 1;
    }
    while a < b && crate::text::is_white_space(cs[b - 1])
        invariant
            a <= b <= cs@.len(),
            cs@ == s@,
            a < b ==> !white_space(cs@[a as int]),
            trimmed(cs@.subrange(a as int, b as int)) == trimmed(s@),
        decreases b - a,
    {
        proof {
            let t = cs@.subrange(a as int, b as int);
            assert(t.drop_last() =~= cs@.subrange(a as int, b - 1));
            assert(t[0] == cs@[a as int]);
        }
        b = b - 1;
    }
    proof {
        let t = cs@.subrange(a as int, b as int);
        if t.len() > 0 {
            assert(t[0] == cs@[a as int]);
            assert(t.last() == cs@[b - 1]);
        }
    }
    substring(&cs, a, b)
}

/// Remove trailing newlines (see [`without_trailing_newlines`]).
pub fn trim_trailing_newlines(s: &str) -> (r: String)
    ensures
        r@ == without_trailing_newlines(s@),
{
    let cs = crate::text::chars_of(s);
    let mut b: usize = cs.len();
    assert(cs@.take(cs@.len() as int) =~= s@);
    while b > 0 && cs[b - 1] == '\n'
        invariant
            b <= cs@.len(),
            cs@ == s@,
            without_trailing_newlines(cs@.take(b as int)) == without_trailing_newlines(s@),
        decreases b,
    {
        proof {
            assert(cs@.take(b as int).drop_last() =~= cs@.take(b - 1));
        }
        b = b - 1;
    }
    proof {
        assert(cs@.take(cs@.len() as int) =~= cs@);
    }
    substring(&cs, 0, b)
}

/// The unified diff rows of a hunk's lines: added, removed and context
/// lines with their text (trailing newlines dropped); other lines skipped.
pub open spec fn unified_rows(ls: Seq<PatchLineView>) -> Seq<DiffLineView>
    decreases ls.len(),
{
    if ls.len() == 0 {
        Seq::empty()
    } else {
        let r = unified_rows(ls.drop_last());
        let l = ls.last();
        let text = without_trailing_newlines(lossy_utf8(l.content));
        if l.origin == '+' {
            r.push(DiffLineView::Added(text))
        } else if l.origin == '-' {
            r.push(DiffLineView::Removed(text))
        } else if l.origin == ' ' {
            r.push(DiffLineView::Context(text))
        } else {
            r
        }
    }
}

/// The unified diff of some hunks: each hunk's trimmed header, then its rows.
pub open spec fn unified_of(hs: Seq<PatchHunkView>) -> Seq<DiffLineView>
    decreases hs.len(),
{
    if hs.len() == 0 {
        Seq::empty()
    } else {
        let h = hs.last();
        unified_of(hs.drop_last()).push(DiffLineView::HunkHeader(trimmed(lossy_utf8(h.header)))) + unified_rows(h.lines)
    }
}

/// A patch line that the unified diff shows: an added, removed or context
/// line.
pub open spec fn shown_line(l: PatchLineView) -> bool {
    l.origin == '+' || l.origin == '-' || l.origin == ' '
}

/// The shown lines among `ls`, in order.
pub open spec fn shown_lines(ls: Seq<PatchLineView>) -> Seq<PatchLineView> {
    ls.filter(|l: PatchLineView| shown_line(l))
}

/// The text a patch line shows: its bytes decoded, trailing newlines dropped.
pub open spec fn shown_text(l: PatchLineView) -> Seq<char> {
    without_trailing_newlines(lossy_utf8(l.content))
}

/// The rows of a hunk in the unified diff are its shown lines, one each and
/// in order: a context line (`' '`) gives a context row with its text, an
/// added line (`'+'`) an added row, a removed line (`'-'`) a removed row.
pub proof fn law_unified_rows(ls: Seq<PatchLineView>)
    ensures
        unified_rows(ls).len() == shown_lines(ls).len(),
        forall|i: int| 0 <= i < ls.len() && shown_line(ls[i]) ==> shown_lines(ls.take(i)).len() < unified_rows(ls).len(),
        forall|i: int| 0 <= i < ls.len() && ls[i].origin == ' '
            ==> #[trigger] unified_rows(ls)[shown_lines(ls.take(i)).len() as int] == DiffLineView::Context(shown_text(ls[i])),
        forall|i: int| 0 <= i < ls.len() && ls[i].origin == '+'
            ==> #[trigger] unified_rows(ls)[shown_lines(ls.take(i)).len() as int] == DiffLineView::Added(shown_text(ls[i])),
        forall|i: int| 0 <= i < ls.len() && ls[i].origin == '-'
            ==> #[trigger] unified_rows(ls)[shown_lines(ls.take(i)).len() as int] == DiffLineView::Removed(shown_text(ls[i])),
    decreases ls.len(),
{
    if ls.len() > 0 {
        let d = ls.drop_last();
        let x = ls.last();
        let last = ls.len() - 1;
        law_unified_rows(d);
        assert(ls =~= d.push(x));
        d.lemma_filter_push(x, |l: PatchLineView| shown_line(l));
        let rd = unified_rows(d);
        let rl = unified_rows(ls);
        assert(ls.take(last) =~= d);
        assert forall|i: int| 0 <= i < last implies #[trigger] ls.take(i) == d.take(i) && ls[i] == d[i] by {
            assert(ls.take(i) =~= d.take(i));
        }
        assert forall|i: int| 0 <= i < rd.len() implies rl[i] == rd[i] by {}
        assert forall|i: int| 0 <= i < ls.len() && shown_line(ls[i]) implies shown_lines(ls.take(i)).len() < rl.len() by {
            if i < last {
                assert(ls.take(i) == d.take(i) && ls[i] == d[i]);
            }
        }
        assert forall|i: int| 0 <= i < ls.len() && ls[i].origin == ' '
            implies #[trigger] rl[shown_lines(ls.take(i)).len() as int] == DiffLineView::Context(shown_text(ls[i])) by {
            if i < last {
                assert(ls.take(i) == d.take(i) && ls[i] == d[i]);
                assert(rd[shown_lines(d.take(i)).len() as int] == DiffLineView::Context(shown_text(d[i])));
            }
        }
        assert forall|i: int| 0 <= i < ls.len() && ls[i].origin == '+'
            implies #[trigger] rl[shown_lines(ls.take(i)).len() as int] == DiffLineView::Added(shown_text(ls[i])) by {
            if i < last {
                assert(ls.take(i) == d.take(i) && ls[i] == d[i]);
                assert(rd[shown_lines(d.take(i)).len() as int] == DiffLineView::Added(shown_text(d[i])));
            }
        }
        assert forall|i: int| 0 <= i < ls.len() && ls[i].origin == '-'
            implies #[trigger] rl[shown_lines(ls.take(i)).len() as int] == DiffLineView::Removed(shown_text(ls[i])) by {
            if i < last {
                assert(ls.take(i) == d.take(i) && ls[i] == d[i]);
                assert(rd[shown_lines(d.take(i)).len() as int] == DiffLineView::Removed(shown_text(d[i])));
            }
        }
    }
}

/// The number of shown lines over all hunks.
pub open spec fn total_shown(hs: Seq<PatchHunkView>) -> nat
    decreases hs.len(),
{
    if hs.len() == 0 { 0 } else { total_shown(hs.drop_last()) + shown_lines(hs.last().lines).len() }
}

/// The unified diff has one header row per hunk and one row per added,
/// removed or context line.
pub proof fn law_unified_row_count(hs: Seq<PatchHunkView>)
    ensures
        unified_of(hs).len() == hs.len() + total_shown(hs),
    decreases hs.len(),
{
    if hs.len() > 0 {
        law_unified_row_count(hs.drop_last());
        law_unified_rows(hs.last().lines);
    }
}

/// Where hunk `j` starts in the unified diff: after one header per earlier
/// hunk and one row per shown line of the earlier hunks.
pub open spec fn hunk_start(hs: Seq<PatchHunkView>, j: int) -> int {
    j + total_shown(hs.take(j))
}

/// Each hunk opens with its header row, trimmed, at [`hunk_start`]; row `i`
/// of the hunk's rows (see [`law_unified_rows`]) follows at `1 + i` after it.
pub proof fn law_unified_hunk_at(hs: Seq<PatchHunkView>, j: int, i: int)
    requires
        0 <= j < hs.len(),
        0 <= i < unified_rows(hs[j].lines).len(),
    ensures
        hunk_start(hs, j) + 1 + i < unified_of(hs).len(),
        unified_of(hs)[hunk_start(hs, j)] == DiffLineView::HunkHeader(trimmed(lossy_utf8(hs[j].header))),
        unified_of(hs)[hunk_start(hs, j) + 1 + i] == unified_rows(hs[j].lines)[i],
    decreases hs.len(),
{
    let d = hs.drop_last();
    let last = hs.len() - 1;
    law_unified_row_count(d);
    assert(hs.take(last) =~= d);
    if j < last {
        assert(hs.take(j) =~= d.take(j));
        assert(hs[j] == d[j]);
        law_unified_hunk_at(d, j, i);
    }
}

/// A hunk's header row stands at [`hunk_start`], also when the hunk shows no
/// lines.
pub proof fn law_unified_header_at(hs: Seq<PatchHunkView>, j: int)
    requires
        0 <= j < hs.len(),
    ensures
        hunk_start(hs, j) < unified_of(hs).len(),
        unified_of(hs)[hunk_start(hs, j)] == DiffLineView::HunkHeader(trimmed(lossy_utf8(hs[j].header))),
    decreases hs.len(),
{
    let d = hs.drop_last();
    let last = hs.len() - 1;
    law_unified_row_count(d);
    assert(hs.take(last) =~= d);
    if j < last {
        assert(hs.take(j) =~= d.take(j));
        assert(hs[j] == d[j]);
        law_unified_header_at(d, j);
    }
}

/// The views of unified diff rows.
pub open spec fn row_views(s: Seq<UnifiedDiffLine>) -> Seq<DiffLineView> {
    s.map_values(|l: UnifiedDiffLine| l@)
}

/// The unified diff of some hunks (see [`unified_of`]).
pub fn unified_from_hunks(hunks: &Vec<PatchHunk>) -> (r: UnifiedDiff)
    ensures
        row_views(r.lines@) == unified_of(hunk_views(hunks@)),
{
    let ghost hv = hunk_views(hunks@);
    let mut lines: Vec<UnifiedDiffLine> = Vec::new();
    let mut h: usize = 0;
    while h < hunks.len()
        invariant
            h <= hunks@.len(),
            hv == hunk_views(hunks@),
            row_views(lines@) == unified_of(hv.take(h as int)),
        decreases hunks.len() - h,
    {
        let hunk = &hunks[h];
        proof {
            let t = hv.take(h as int + 1);
            assert(t.drop_last() =~= hv.take(h as int));
            assert(t.last() == hunk@);
        }
        let header = trim_whitespace(decode_lossy(hunk.header.as_slice()).as_str());
        let ghost before = row_views(lines@);
        lines.push(UnifiedDiffLine::HunkHeader(header));
        let ghost head = row_views(lines@);
        assert(head =~= before.push(DiffLineView::HunkHeader(trimmed(lossy_utf8(hunk@.header)))));
        let ghost lv = hunk@.lines;
        let mut l: usize = 0;
        while l < hunk.lines.len()
            invariant
                l <= hunk.lines@.len(),
                lv == hunk@.lines,
                row_views(lines@) == head + unified_rows(lv.take(l as int)),
            decreases hunk.lines.len() - l,
        {
            proof {
                let t = lv.take(l as int + 1);
                assert(t.drop_last() =~= lv.take(l as int));
                assert(t.last() == hunk.lines@[l as int]@);
            }
            let line = &hunk.lines[l];
            let content = trim_trailing_newlines(decode_lossy(line.content.as_slice()).as_str());
            let ghost prev = row_views(lines@);
            if line.origin == '+' {
                lines.push(UnifiedDiffLine::Added(content));
                assert(row_views(lines@) =~= prev.push(DiffLineView::Added(content@)));
            } else if line.origin == '-' {
                lines.push(UnifiedDiffLine::Removed(content));
                assert(row_views(lines@) =~= prev.push(DiffLineView::Removed(content@)));
            } else if line.origin == ' ' {
                lines.push(UnifiedDiffLine::Context(content));
                assert(row_views(lines@) =~= prev.push(DiffLineView::Context(content@)));
            }
            l = l + 1;
        }
        proof {
            assert(lv.take(lv.len() as int) =~= lv);
        }
        h = h + 1;
    }
    proof {
        assert(hv.take(hv.len() as int) =~= hv);
    }
    UnifiedDiff { lines }
}

/// The unified diff of a file whose working-tree text is `working` against
/// its committed text (empty when there is none); `None` when the diff fails.
pub fn compute_unified_diff(committed: Option<&str>, working: &str) -> (r: Option<UnifiedDiff>)
    ensures
        ({
            let old_bytes = match committed { Some(c) => vstd::utf8::encode_utf8(c@), None => Seq::<u8>::empty() };
            match buffer_patch(old_bytes, vstd::utf8::encode_utf8(working@)) {
                None => r is None,
                Some(hs) => r is Some && row_views(r->0.lines@) == unified_of(hs),
            }
        }),
{
    let old_text: &str = match committed { Some(c) => c, None => "" };
    proof {
        if committed is None {
            reveal_strlit("");
            assert(vstd::utf8::encode_utf8(""@) =~= Seq::<u8>::empty());
        }
    }
    match patch_from_buffers(old_text.as_bytes(), working.as_bytes()) {
        None => None,
        Some(hunks) => Some(unified_from_hunks(&hunks)),
    }
}

} // verus!
