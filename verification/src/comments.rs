//! Inline review comments and the session-wide comment store.
use vstd::prelude::*;
use crate::text::{str_eq, to_owned_string, push_str, push_char, decimal, decimal_string};
use crate::paths::{path_less, path_lt, strictly_sorted_paths, lemma_path_lt_total, lemma_path_lt_transitive, lemma_sorted_paths_unique};

verus! {

/// The character view of a list of lines.
pub open spec fn lines_view(v: Seq<String>) -> Seq<Seq<char>> {
    v.map_values(|s: String| s@)
}

/// A single inline comment on a file line or range of lines.
pub struct Comment {
    pub file: String,
    /// 1-indexed start line.
    pub start_line: usize,
    /// 1-indexed end line (same as start_line for single-line comments).
    pub end_line: usize,
    pub text: String,
    /// Snapshot of code lines at comment creation time (empty = no context).
    pub code_context: Vec<String>,
}

/// True when `ctx` occurs in `lines` starting at index `i`.
pub open spec fn context_at(ctx: Seq<Seq<char>>, lines: Seq<Seq<char>>, i: int) -> bool {
    &&& 0 <= i
    &&& i + ctx.len() <= lines.len()
    &&& lines.subrange(i, i + ctx.len()) == ctx
}

/// Distance between two line indices.
pub open spec fn dist(a: int, b: int) -> int {
    if a >= b { a - b } else { b - a }
}

/// The 0-indexed line at which a comment starts (`start_line - 1`, floored at 0).
pub open spec fn original_index(start_line: usize) -> int {
    if start_line == 0 { 0 } else { start_line - 1 }
}

/// `p` is the occurrence of `ctx` in `lines` nearest to `orig`; among equally
/// near occurrences the earliest one.
pub open spec fn is_nearest_occurrence(ctx: Seq<Seq<char>>, lines: Seq<Seq<char>>, orig: int, p: int) -> bool {
    &&& context_at(ctx, lines, p)
    &&& forall|q: int| #[trigger] context_at(ctx, lines, q) ==> dist(p, orig) < dist(q, orig) || (dist(p, orig) == dist(q, orig) && p <= q)
}

/// True when a non-empty code context occurs somewhere in `lines`.
pub open spec fn context_found(ctx: Seq<Seq<char>>, lines: Seq<Seq<char>>) -> bool {
    ctx.len() > 0 && exists|i: int| #[trigger] context_at(ctx, lines, i)
}

/// Whether `lines[i..i + ctx.len()]` equals `ctx`.
fn block_matches(ctx: &Vec<String>, lines: &[String], i: usize) -> (r: bool)
    requires
        i + ctx@.len() <= lines@.len(),
    ensures
        r == context_at(lines_view(ctx@), lines_view(lines@), i as int),
{
    let n = lines.len();
    let mut k: usize = 0;
    while k < ctx.len()
        invariant
            n == lines@.len(),
            i + ctx@.len() <= lines@.len(),
            k <= ctx@.len(),
            forall|j: int| 0 <= j < k ==> lines@[i + j]@ == ctx@[j]@,
        decreases ctx.len() - k,
    {
        if lines[i + k] != ctx[k] {
            proof {
                let a = lines_view(lines@).subrange(i as int, i + ctx@.len());
                assert(a[k as int] != lines_view(ctx@)[k as int]);
            }
            return false;
        }
        k = k + 1;
    }
    assert(lines_view(lines@).subrange(i as int, i + ctx@.len()) =~= lines_view(ctx@));
    true
}

impl Comment {
    /// Search for the code context block in `current_lines`, returning the
    /// 0-indexed start position nearest to the comment's original location.
    pub fn find_context_in(&self, current_lines: &[String]) -> (r: Option<usize>)
        ensures
            match r {
                Some(p) => self.code_context@.len() > 0 && is_nearest_occurrence(
                    lines_view(self.code_context@),
                    lines_view(current_lines@),
                    original_index(self.start_line),
                    p as int,
                ),
                None => !context_found(lines_view(self.code_context@), lines_view(current_lines@)),
            },
    {
        let ghost ctx = lines_view(self.code_context@);
        let ghost lines = lines_view(current_lines@);
        let n = current_lines.len();
        let m = self.code_context.len();
        if m == 0 || m > n {
            proof {
                if m > n {
                    assert forall|i: int| !#[trigger] context_at(ctx, lines, i) by {}
                }
            }
            return None;
        }
        let original: usize = if self.start_line == 0 { 0 } else { self.start_line - 1 };
        let mut best: Option<(usize, usize)> = None;
        let mut i: usize = 0;
        while i <= n - m
            invariant
                m == ctx.len(),
                n == lines.len(),
                0 < m <= n,
                i <= n - m + 1,
                ctx == lines_view(self.code_context@),
                lines == lines_view(current_lines@),
                original == original_index(self.start_line),
                match best {
                    None => forall|q: int| 0 <= q < i ==> !#[trigger] context_at(ctx, lines, q),
                    Some((d, p)) => {
                        &&& p < i
                        &&& context_at(ctx, lines, p as int)
                        &&& d == dist(p as int, original as int)
                        &&& forall|q: int| 0 <= q < i && #[trigger] context_at(ctx, lines, q) ==>
                            dist(p as int, original as int) < dist(q, original as int)
                            || (dist(p as int, original as int) == dist(q, original as int) && p <= q)
                    },
                },
            decreases n - m + 1 - i,
        {
            if block_matches(&self.code_context, current_lines, i) {
                let d: usize = if i >= original { i - original } else { original - i };
                let better = match best {
                    None => true,
                    Some((bd, _)) => d < bd,
                };
                if better {
                    best = Some((d, i));
                }
            }
            i = i + 1;
        }
        proof {
            assert forall|q: int| #[trigger] context_at(ctx, lines, q) implies 0 <= q < i by {}
        }
        match best {
            Some((_, p)) => Some(p),
            None => None,
        }
    }

    /// Check if this comment's code context no longer matches the current file content.
    /// Returns false for comments with an empty code context.
    pub fn is_stale(&self, current_lines: &[String]) -> (r: bool)
        ensures
            r == (self.code_context@.len() > 0 && !context_found(
                lines_view(self.code_context@),
                lines_view(current_lines@),
            )),
    {
        if self.code_context.len() == 0 {
            return false;
        }
        let start: usize = if self.start_line == 0 { 0 } else { self.start_line - 1 };
        let end: usize = if self.end_line < current_lines.len() { self.end_line } else { current_lines.len() };
        if start < end && end - start == self.code_context.len() && block_matches(&self.code_context, current_lines, start) {
            return false;
        }
        self.find_context_in(current_lines).is_none()
    }
}


/// True when comment `c` sits on exactly the range `(start, end)` of file `f`.
pub open spec fn on_range(c: Comment, f: Seq<char>, start: usize, end: usize) -> bool {
    c.file@ == f && c.start_line == start && c.end_line == end
}

/// True when comment `c` covers `line` of file `f`.
pub open spec fn covers(c: Comment, f: Seq<char>, line: usize) -> bool {
    c.file@ == f && c.start_line <= line <= c.end_line
}

/// `i` is the first index of `cs` whose comment satisfies `on_range`.
pub open spec fn first_on_range(cs: Seq<Comment>, f: Seq<char>, start: usize, end: usize, i: int) -> bool {
    &&& 0 <= i < cs.len()
    &&& on_range(cs[i], f, start, end)
    &&& forall|j: int| 0 <= j < i ==> !on_range(cs[j], f, start, end)
}

/// `i` is the first index of `cs` whose comment covers `line` of `f`.
pub open spec fn first_covering(cs: Seq<Comment>, f: Seq<char>, line: usize, i: int) -> bool {
    &&& 0 <= i < cs.len()
    &&& covers(cs[i], f, line)
    &&& forall|j: int| 0 <= j < i ==> !covers(cs[j], f, line)
}

/// No two comments of `cs` sit on the same range of the same file.
pub open spec fn unique_ranges(cs: Seq<Comment>) -> bool {
    forall|i: int, j: int| #![trigger cs[i], cs[j]] 0 <= i < j < cs.len() ==>
        !(cs[i].file@ == cs[j].file@ && cs[i].start_line == cs[j].start_line && cs[i].end_line == cs[j].end_line)
}

/// Predicate: the comment is not on the range `(start, end)` of file `f`.
pub open spec fn off_range(f: Seq<char>, start: usize, end: usize) -> spec_fn(Comment) -> bool {
    |c: Comment| !on_range(c, f, start, end)
}

/// The comment `c` with its text and code context replaced.
pub open spec fn with_body(c: Comment, text: String, ctx: Vec<String>) -> Comment {
    Comment { file: c.file, start_line: c.start_line, end_line: c.end_line, text: text, code_context: ctx }
}

/// Predicate: the comment belongs to file `f`.
pub open spec fn in_file(f: Seq<char>) -> spec_fn(Comment) -> bool {
    |c: Comment| c.file@ == f
}

/// Number of comments in `s` starting at or before line `k`.
pub open spec fn count_start_le(s: Seq<Comment>, k: usize) -> nat
    decreases s.len(),
{
    if s.len() == 0 {
        0
    } else {
        count_start_le(s.drop_last(), k) + if s.last().start_line <= k { 1nat } else { 0nat }
    }
}

/// Insert `c` into `s` after every comment that starts at or before it.
pub open spec fn insert_by_start(s: Seq<Comment>, c: Comment) -> Seq<Comment> {
    let p = count_start_le(s, c.start_line) as int;
    s.take(p) + seq![c] + s.skip(p)
}

/// Stable sort of comments by start line (insertion order kept among equal starts).
pub open spec fn sort_by_start(s: Seq<Comment>) -> Seq<Comment>
    decreases s.len(),
{
    if s.len() == 0 {
        s
    } else {
        insert_by_start(sort_by_start(s.drop_last()), s.last())
    }
}

/// Comments are in non-decreasing order of start line.
pub open spec fn sorted_by_start(s: Seq<Comment>) -> bool {
    forall|i: int, j: int| 0 <= i < j < s.len() ==> s[i].start_line <= s[j].start_line
}

/// The comments of file `f`, sorted by start line.
pub open spec fn comments_of_file(cs: Seq<Comment>, f: Seq<char>) -> Seq<Comment> {
    sort_by_start(cs.filter(in_file(f)))
}

proof fn lemma_count_start_le_split(s: Seq<Comment>, k: usize, p: int)
    requires
        0 <= p <= s.len(),
        sorted_by_start(s),
        forall|j: int| 0 <= j < p ==> s[j].start_line <= k,
        p < s.len() ==> s[p].start_line > k,
    ensures
        count_start_le(s, k) == p,
    decreases s.len(),
{
    if s.len() > 0 {
        if p == s.len() {
            lemma_count_start_le_split(s.drop_last(), k, p - 1);
        } else {
            lemma_count_start_le_split(s.drop_last(), k, p);
        }
    }
}

/// Insert a comment reference into a list kept sorted by start line, after all
/// comments that start at or before it.
fn insert_sorted<'a>(r: &mut Vec<&'a Comment>, c: &'a Comment)
    requires
        sorted_by_start(old(r)@.map_values(|x: &Comment| *x)),
    ensures
        final(r)@.map_values(|x: &Comment| *x) == insert_by_start(old(r)@.map_values(|x: &Comment| *x), *c),
        sorted_by_start(final(r)@.map_values(|x: &Comment| *x)),
{
    let ghost rs = old(r)@.map_values(|x: &Comment| *x);
    let mut p: usize = 0;
    while p < r.len() && r[p].start_line <= c.start_line
        invariant
            p <= r@.len(),
            r@ == old(r)@,
            rs == r@.map_values(|x: &Comment| *x),
            forall|j: int| 0 <= j < p ==> rs[j].start_line <= c.start_line,
        decreases r.len() - p,
    {
        p = p + 1;
    }
    proof {
        lemma_count_start_le_split(rs, c.start_line, p as int);
    }
    r.insert(p, c);
    proof {
        let out = r@.map_values(|x: &Comment| *x);
        assert(out =~= rs.take(p as int) + seq![*c] + rs.skip(p as int));
        assert forall|i: int, j: int| 0 <= i < j < out.len() implies out[i].start_line <= out[j].start_line by {
            if j < p {
            } else if i < p && j == p {
            } else if i < p {
                assert(out[j] == rs[j - 1]);
            } else if i == p {
                assert(out[j] == rs[j - 1]);
            } else {
                assert(out[i] == rs[i - 1]);
                assert(out[j] == rs[j - 1]);
            }
        }
    }
}

/// The comment `c` moved to the range `(start, end)`.
pub open spec fn with_range(c: Comment, start: usize, end: usize) -> Comment {
    Comment { file: c.file, start_line: start, end_line: end, text: c.text, code_context: c.code_context }
}

/// The comment's code context sits exactly at its recorded range.
pub open spec fn at_recorded_range(c: Comment, lines: Seq<Seq<char>>) -> bool {
    let start = original_index(c.start_line);
    let end = if c.end_line < lines.len() { c.end_line as int } else { lines.len() as int };
    &&& start < end
    &&& end - start == c.code_context@.len()
    &&& context_at(lines_view(c.code_context@), lines, start)
}

/// Where relocation moves comment `c` of file `f` given the current file lines:
/// a comment whose context is found elsewhere follows it to the nearest
/// occurrence, keeping its range length; otherwise it stays.
pub open spec fn relocated(c: Comment, f: Seq<char>, lines: Seq<Seq<char>>) -> Comment {
    let ctx = lines_view(c.code_context@);
    if c.file@ != f || ctx.len() == 0 || at_recorded_range(c, lines) || !context_found(ctx, lines) {
        c
    } else {
        let p = choose|p: int| is_nearest_occurrence(ctx, lines, original_index(c.start_line), p);
        with_range(c, (p + 1) as usize, (p + 1 + (c.end_line - c.start_line)) as usize)
    }
}

/// The nearest occurrence is unique.
pub proof fn lemma_nearest_unique(ctx: Seq<Seq<char>>, lines: Seq<Seq<char>>, orig: int, p: int, q: int)
    requires
        is_nearest_occurrence(ctx, lines, orig, p),
        is_nearest_occurrence(ctx, lines, orig, q),
    ensures
        p == q,
{
    assert(context_at(ctx, lines, q));
    assert(context_at(ctx, lines, p));
}

/// The occurrence of `ctx` nearest to `orig` among the indices before `k`
/// (the earliest of equally near ones), or -1 when there is none.
spec fn best_before(ctx: Seq<Seq<char>>, lines: Seq<Seq<char>>, orig: int, k: int) -> int
    decreases k,
{
    if k <= 0 {
        -1
    } else {
        let b = best_before(ctx, lines, orig, k - 1);
        if context_at(ctx, lines, k - 1) && (b < 0 || dist(k - 1, orig) < dist(b, orig)) { k - 1 } else { b }
    }
}

proof fn lemma_best_before(ctx: Seq<Seq<char>>, lines: Seq<Seq<char>>, orig: int, k: int)
    requires
        k >= 0,
    ensures
        best_before(ctx, lines, orig, k) < 0 ==> forall|q: int| 0 <= q < k ==> !context_at(ctx, lines, q),
        best_before(ctx, lines, orig, k) >= 0 ==> {
            let b = best_before(ctx, lines, orig, k);
            &&& b < k
            &&& context_at(ctx, lines, b)
            &&& forall|q: int| 0 <= q < k && #[trigger] context_at(ctx, lines, q)
                ==> dist(b, orig) < dist(q, orig) || (dist(b, orig) == dist(q, orig) && b <= q)
        },
    decreases k,
{
    if k > 0 {
        lemma_best_before(ctx, lines, orig, k - 1);
    }
}

/// A context that occurs somewhere has a nearest occurrence.
proof fn lemma_nearest_exists(ctx: Seq<Seq<char>>, lines: Seq<Seq<char>>, orig: int, i: int)
    requires
        context_at(ctx, lines, i),
    ensures
        exists|p: int| is_nearest_occurrence(ctx, lines, orig, p),
{
    let k: int = lines.len() as int + 1;
    lemma_best_before(ctx, lines, orig, k);
    let b = best_before(ctx, lines, orig, k);
    assert(b >= 0);
    assert forall|q: int| #[trigger] context_at(ctx, lines, q) implies
        dist(b, orig) < dist(q, orig) || (dist(b, orig) == dist(q, orig) && b <= q) by {
        assert(0 <= q < k);
    }
    assert(is_nearest_occurrence(ctx, lines, orig, b));
}

/// Relocation keeps a comment's file, its code context and the length of its
/// range.
proof fn lemma_relocated_span(c: Comment, f: Seq<char>, lines: Seq<Seq<char>>)
    requires
        c.start_line <= c.end_line,
        c.end_line - c.start_line + lines.len() < usize::MAX,
    ensures
        relocated(c, f, lines).file == c.file,
        relocated(c, f, lines).code_context == c.code_context,
        relocated(c, f, lines).start_line <= relocated(c, f, lines).end_line,
        relocated(c, f, lines).end_line - relocated(c, f, lines).start_line == c.end_line - c.start_line,
{
    let ctx = lines_view(c.code_context@);
    if !(c.file@ != f || ctx.len() == 0 || at_recorded_range(c, lines) || !context_found(ctx, lines)) {
        let i = choose|i: int| #[trigger] context_at(ctx, lines, i);
        lemma_nearest_exists(ctx, lines, original_index(c.start_line), i);
        let p = choose|p: int| is_nearest_occurrence(ctx, lines, original_index(c.start_line), p);
        assert(context_at(ctx, lines, p));
    }
}

/// Relocating comments a second time against the same file content leaves
/// them where the first relocation put them.
pub proof fn law_relocate_idempotent(c: Comment, f: Seq<char>, lines: Seq<Seq<char>>)
    requires
        c.start_line <= c.end_line,
        c.end_line - c.start_line + lines.len() < usize::MAX,
    ensures
        relocated(relocated(c, f, lines), f, lines) == relocated(c, f, lines),
{
    let ctx = lines_view(c.code_context@);
    if c.file@ != f || ctx.len() == 0 || at_recorded_range(c, lines) || !context_found(ctx, lines) {
    } else {
        let i = choose|i: int| #[trigger] context_at(ctx, lines, i);
        lemma_nearest_exists(ctx, lines, original_index(c.start_line), i);
        let p = choose|p: int| is_nearest_occurrence(ctx, lines, original_index(c.start_line), p);
        let c1 = with_range(c, (p + 1) as usize, (p + 1 + (c.end_line - c.start_line)) as usize);
        assert(relocated(c, f, lines) == c1);
        assert(original_index(c1.start_line) == p);
        assert(c1.end_line - c1.start_line == c.end_line - c.start_line);
        assert(is_nearest_occurrence(ctx, lines, p, p));
        if !at_recorded_range(c1, lines) {
            let q = choose|q: int| is_nearest_occurrence(ctx, lines, original_index(c1.start_line), q);
            lemma_nearest_unique(ctx, lines, p, p, q);
        }
    }
}

/// The files that `cs` comments on.
pub open spec fn has_file(cs: Seq<Comment>, f: Seq<char>) -> bool {
    exists|i: int| 0 <= i < cs.len() && (#[trigger] cs[i]).file@ == f
}

/// The files commented on, each once, in path order.
pub open spec fn sorted_files(cs: Seq<Comment>) -> Seq<Seq<char>> {
    choose|fs: Seq<Seq<char>>| strictly_sorted_paths(fs) && forall|x: Seq<char>| fs.contains(x) <==> has_file(cs, x)
}

/// Inserts `f` into the strictly sorted list `r` unless it is already there.
fn insert_path(r: &mut Vec<String>, f: &String)
    requires
        strictly_sorted_paths(lines_view(old(r)@)),
    ensures
        strictly_sorted_paths(lines_view(final(r)@)),
        forall|x: Seq<char>| lines_view(final(r)@).contains(x) <==> (lines_view(old(r)@).contains(x) || x == f@),
{
    let ghost rs = lines_view(r@);
    let mut p: usize = 0;
    while p < r.len() && path_less(r[p].as_str(), f.as_str())
        invariant
            p <= r@.len(),
            r@ == old(r)@,
            rs == lines_view(r@),
            forall|j: int| 0 <= j < p ==> path_lt(rs[j], f@),
        decreases r.len() - p,
    {
        p = p + 1;
    }
    if p < r.len() && r[p] == *f {
        assert(rs[p as int] == f@);
        assert(rs.contains(f@));
        return;
    }
    proof {
        // every later element is strictly greater than f
        assert forall|j: int| p <= j < rs.len() implies path_lt(f@, rs[j]) by {
            lemma_path_lt_total(rs[p as int], f@);
            if j > p {
                lemma_path_lt_transitive(f@, rs[p as int], rs[j]);
            }
        }
    }
    r.insert(p, f.clone());
    proof {
        let out = lines_view(r@);
        assert(out =~= rs.take(p as int) + seq![f@] + rs.skip(p as int));
        assert forall|i: int, j: int| 0 <= i < j < out.len() implies path_lt(out[i], out[j]) by {
            if j < p {
            } else if i < p && j == p {
            } else if i < p {
                assert(out[j] == rs[j - 1]);
                lemma_path_lt_transitive(out[i], f@, out[j]);
            } else if i == p {
                assert(out[j] == rs[j - 1]);
            } else {
                assert(out[i] == rs[i - 1]);
                assert(out[j] == rs[j - 1]);
            }
        }
        assert forall|x: Seq<char>| out.contains(x) <==> (rs.contains(x) || x == f@) by {
            if out.contains(x) {
                let k = choose|k: int| 0 <= k < out.len() && out[k] == x;
                if k < p { assert(rs[k] == x); } else if k > p { assert(rs[k - 1] == x); }
            }
            if rs.contains(x) {
                let k = choose|k: int| 0 <= k < rs.len() && rs[k] == x;
                if k < p { assert(out[k] == x); } else { assert(out[k + 1] == x); }
            }
            if x == f@ {
                assert(out[p as int] == x);
            }
        }
    }
}

/// `"L<start>: <text>\n"` or `"L<start>-<end>: <text>\n"`.
pub open spec fn export_heading(c: Comment) -> Seq<char> {
    seq!['L'] + decimal(c.start_line as nat)
        + (if c.start_line == c.end_line { Seq::<char>::empty() } else { seq!['-'] + decimal(c.end_line as nat) })
        + seq![':', ' '] + c.text@ + seq!['\n']
}

/// The first `n` context lines, each as `"<line number> | <code>\n"`.
pub open spec fn export_context_lines(start: nat, ctx: Seq<Seq<char>>, n: nat) -> Seq<char>
    decreases n,
{
    if n == 0 {
        Seq::empty()
    } else {
        export_context_lines(start, ctx, (n - 1) as nat) + decimal(start + (n - 1) as nat) + seq![' ', '|', ' '] + ctx[n - 1] + seq!['\n']
    }
}

/// A fenced block with the comment's code context (nothing without context).
pub open spec fn export_context(c: Comment) -> Seq<char> {
    let ctx = lines_view(c.code_context@);
    if ctx.len() == 0 {
        Seq::empty()
    } else {
        seq!['`', '`', '`', '\n'] + export_context_lines(c.start_line as nat, ctx, ctx.len()) + seq!['`', '`', '`', '\n']
    }
}

/// The exported text of one comment.
pub open spec fn export_comment(c: Comment) -> Seq<char> {
    export_heading(c) + export_context(c) + seq!['\n']
}

/// The exported text of a list of comments, in order.
pub open spec fn export_comments(s: Seq<Comment>) -> Seq<char>
    decreases s.len(),
{
    if s.len() == 0 {
        Seq::empty()
    } else {
        export_comments(s.drop_last()) + export_comment(s.last())
    }
}

/// `"## <file>\n\n"` followed by the file's comments by start line.
pub open spec fn export_file(cs: Seq<Comment>, f: Seq<char>) -> Seq<char> {
    seq!['#', '#', ' '] + f + seq!['\n', '\n'] + export_comments(comments_of_file(cs, f))
}

/// The sections of the given files, in order.
pub open spec fn export_files(cs: Seq<Comment>, fs: Seq<Seq<char>>) -> Seq<char>
    decreases fs.len(),
{
    if fs.len() == 0 {
        Seq::empty()
    } else {
        export_files(cs, fs.drop_last()) + export_file(cs, fs.last())
    }
}

/// The structured plain-text export of all comments: one section per file in
/// path order, comments by start line.
pub open spec fn export_text(cs: Seq<Comment>) -> Seq<char> {
    export_files(cs, sorted_files(cs))
}

/// Line numbers of the code context fit in `usize`.
pub open spec fn context_numbers_fit(c: Comment) -> bool {
    c.start_line + c.code_context@.len() <= usize::MAX + 1
}

fn push_decimal(s: &mut String, n: usize)
    ensures
        final(s)@ == old(s)@ + decimal(n as nat),
{
    let d = decimal_string(n);
    push_str(s, d.as_str());
}

fn export_one(out: &mut String, c: &Comment)
    requires
        context_numbers_fit(*c),
    ensures
        final(out)@ == old(out)@ + export_comment(*c),
{
    let ghost o = out@;
    push_char(out, 'L');
    push_decimal(out, c.start_line);
    if c.start_line != c.end_line {
        push_char(out, '-');
        push_decimal(out, c.end_line);
    }
    push_char(out, ':');
    push_char(out, ' ');
    push_str(out, c.text.as_str());
    push_char(out, '\n');
    assert(out@ =~= o + export_heading(*c));
    let ghost h = out@;
    let ghost ctx = lines_view(c.code_context@);
    if c.code_context.len() > 0 {
        push_char(out, '`');
        push_char(out, '`');
        push_char(out, '`');
        push_char(out, '\n');
        let ghost h2 = out@;
        let mut i: usize = 0;
        while i < c.code_context.len()
            invariant
                i <= c.code_context@.len(),
                context_numbers_fit(*c),
                ctx == lines_view(c.code_context@),
                out@ == h2 + export_context_lines(c.start_line as nat, ctx, i as nat),
            decreases c.code_context.len() - i,
        {
            push_decimal(out, c.start_line + i);
            push_char(out, ' ');
            push_char(out, '|');
            push_char(out, ' ');
            push_str(out, c.code_context[i].as_str());
            push_char(out, '\n');
            proof {
                assert(export_context_lines(c.start_line as nat, ctx, (i + 1) as nat)
                    == export_context_lines(c.start_line as nat, ctx, i as nat) + decimal((c.start_line + i) as nat) + seq![' ', '|', ' '] + ctx[i as int] + seq!['\n']);
                assert(out@ =~= h2 + export_context_lines(c.start_line as nat, ctx, (i + 1) as nat));
            }
            i = i + 1;
        }
        push_char(out, '`');
        push_char(out, '`');
        push_char(out, '`');
        push_char(out, '\n');
        assert(out@ =~= h + export_context(*c));
    } else {
        assert(out@ =~= h + export_context(*c));
    }
    push_char(out, '\n');
    assert(out@ =~= o + export_comment(*c));
}

/// Every element of a filtered sequence comes from the original one.
proof fn lemma_filter_member(s: Seq<Comment>, pred: spec_fn(Comment) -> bool, m: int)
    requires
        0 <= m < s.filter(pred).len(),
    ensures
        exists|i: int| 0 <= i < s.len() && s[i] == s.filter(pred)[m],
{
    s.lemma_filter_contains_rev(pred, s.filter(pred)[m]);
    assert(s.filter(pred).contains(s.filter(pred)[m]));
}

/// Sorting keeps exactly the same elements.
pub proof fn lemma_sort_by_start_members(s: Seq<Comment>)
    ensures
        sort_by_start(s).len() == s.len(),
        forall|j: int| 0 <= j < s.len() ==> exists|m: int| 0 <= m < s.len() && s[m] == #[trigger] sort_by_start(s)[j],
    decreases s.len(),
{
    if s.len() > 0 {
        let r = sort_by_start(s.drop_last());
        lemma_sort_by_start_members(s.drop_last());
        lemma_count_start_le_bound(r, s.last().start_line);
        let p = count_start_le(r, s.last().start_line) as int;
        let out = insert_by_start(r, s.last());
        assert forall|j: int| 0 <= j < s.len() implies exists|m: int| 0 <= m < s.len() && s[m] == #[trigger] out[j] by {
            if j < p {
                assert(out[j] == r[j]);
                let m = choose|m: int| 0 <= m < s.drop_last().len() && s.drop_last()[m] == r[j];
                assert(s[m] == out[j]);
            } else if j == p {
                assert(s[s.len() - 1] == out[j]);
            } else {
                assert(out[j] == r[j - 1]);
                let m = choose|m: int| 0 <= m < s.drop_last().len() && s.drop_last()[m] == r[j - 1];
                assert(s[m] == out[j]);
            }
        }
    }
}

/// Sorting loses no comment.
pub proof fn lemma_sort_by_start_complete(s: Seq<Comment>)
    ensures
        sort_by_start(s).len() == s.len(),
        forall|m: int| 0 <= m < s.len() ==> exists|j: int| 0 <= j < s.len() && #[trigger] sort_by_start(s)[j] == #[trigger] s[m],
    decreases s.len(),
{
    lemma_sort_by_start_members(s);
    if s.len() > 0 {
        let d = s.drop_last();
        let r = sort_by_start(d);
        lemma_sort_by_start_complete(d);
        lemma_count_start_le_bound(r, s.last().start_line);
        let p = count_start_le(r, s.last().start_line) as int;
        let out = insert_by_start(r, s.last());
        assert forall|m: int| 0 <= m < s.len() implies exists|j: int| 0 <= j < s.len() && #[trigger] out[j] == #[trigger] s[m] by {
            if m < s.len() - 1 {
                assert(d[m] == s[m]);
                let j0 = choose|j: int| 0 <= j < d.len() && #[trigger] r[j] == d[m];
                if j0 < p {
                    assert(out[j0] == r[j0]);
                } else {
                    assert(out[j0 + 1] == r[j0]);
                }
            } else {
                assert(out[p] == s.last());
            }
        }
    }
}

proof fn lemma_count_start_le_bound(s: Seq<Comment>, k: usize)
    ensures
        count_start_le(s, k) <= s.len(),
    decreases s.len(),
{
    if s.len() > 0 {
        lemma_count_start_le_bound(s.drop_last(), k);
    }
}

/// An entry of the comment list view: a file header or one comment.
pub enum CommentListEntry {
    Header { file: String, display_name: String },
    Comment { file: String, start_line: usize, end_line: usize, text: String },
}

impl CommentListEntry {
    /// Whether this entry is a file header.
    pub fn is_header(&self) -> (r: bool)
        ensures
            r == (self is Header),
    {
        match self {
            CommentListEntry::Header { .. } => true,
            CommentListEntry::Comment { .. } => false,
        }
    }
}

/// In-memory store for all comments in the session.
pub struct CommentStore {
    comments: Vec<Comment>,
}

impl View for CommentStore {
    type V = Seq<Comment>;

    closed spec fn view(&self) -> Seq<Comment> {
        self.comments@
    }
}

proof fn lemma_filter_keeps_unique(cs: Seq<Comment>, p: spec_fn(Comment) -> bool)
    ensures
        unique_ranges(cs) ==> unique_ranges(cs.filter(p)),
    decreases cs.len(),
{
    reveal(Seq::filter);
    if cs.len() > 0 {
        let d = cs.drop_last();
        lemma_filter_keeps_unique(d, p);
        if unique_ranges(cs) {
            assert(unique_ranges(d)) by {
                assert forall|a: int, b: int| #![trigger d[a], d[b]] 0 <= a < b < d.len() implies
                    !(d[a].file@ == d[b].file@ && d[a].start_line == d[b].start_line && d[a].end_line == d[b].end_line) by {
                    assert(d[a] == cs[a] && d[b] == cs[b]);
                }
            }
            let fd = d.filter(p);
            if p(cs.last()) {
                let f = fd.push(cs.last());
                assert(cs.filter(p) == f);
                assert forall|a: int, b: int| #![trigger f[a], f[b]] 0 <= a < b < f.len() implies
                    !(f[a].file@ == f[b].file@ && f[a].start_line == f[b].start_line && f[a].end_line == f[b].end_line) by {
                    if b == f.len() - 1 {
                        assert(fd.contains(fd[a]));
                        d.lemma_filter_contains_rev(p, fd[a]);
                        assert(d.contains(fd[a]));
                        let k = choose|k: int| 0 <= k < d.len() && d[k] == fd[a];
                        assert(cs[k] == d[k]);
                        assert(f[a] == fd[a]);
                        assert(f[b] == cs[cs.len() - 1]);
                    } else {
                        assert(f[a] == fd[a] && f[b] == fd[b]);
                    }
                }
            }
        }
    }
}

/// What adding a comment on the range `(start, end)` of file `f` does to
/// the comments `before`: the first comment already on that range gets the
/// new text and code context; with none there, the new comment is appended.
/// Either way a comment with that text now sits first on the range.
pub open spec fn comment_added(before: Seq<Comment>, after: Seq<Comment>, f: Seq<char>, start: usize, end: usize, text: String, ctx: Vec<String>) -> bool {
    &&& forall|i: int| first_on_range(before, f, start, end, i) ==> after == before.update(i, with_body(before[i], text, ctx))
    &&& (forall|j: int| 0 <= j < before.len() ==> !on_range(#[trigger] before[j], f, start, end)) ==> {
        &&& after.len() == before.len() + 1
        &&& after.take(before.len() as int) == before
        &&& on_range(after.last(), f, start, end)
        &&& after.last().text == text
        &&& after.last().code_context == ctx
    }
    &&& exists|i: int| first_on_range(after, f, start, end, i) && after[i].text == text && after[i].code_context == ctx
}

/// What looking up the range `(start, end)` of file `f` in `cs` gives: the
/// first comment on that range, or nothing when no comment sits on it.
pub open spec fn exact_lookup(cs: Seq<Comment>, f: Seq<char>, start: usize, end: usize, r: Option<Comment>) -> bool {
    match r {
        Some(c) => exists|i: int| first_on_range(cs, f, start, end, i) && cs[i] == c,
        None => forall|j: int| 0 <= j < cs.len() ==> !on_range(#[trigger] cs[j], f, start, end),
    }
}

/// Reading a range back after writing a comment on it gives that comment:
/// the lookup finds a comment, with the text and code context written.
pub proof fn law_read_after_add(before: Seq<Comment>, after: Seq<Comment>, f: Seq<char>, start: usize, end: usize, text: String, ctx: Vec<String>, found: Option<Comment>)
    requires
        comment_added(before, after, f, start, end, text, ctx),
        exact_lookup(after, f, start, end, found),
    ensures
        found matches Some(c) && c.text == text && c.code_context == ctx,
{
    let i = choose|i: int| first_on_range(after, f, start, end, i) && after[i].text == text && after[i].code_context == ctx;
    match found {
        Some(c) => {
            let k = choose|k: int| first_on_range(after, f, start, end, k) && after[k] == c;
            if k < i {
                assert(!on_range(after[k], f, start, end));
            } else if k > i {
                assert(!on_range(after[i], f, start, end));
            }
        },
        None => {
            assert(!on_range(after[i], f, start, end));
        },
    }
}

/// Deleting a range after writing a comment on it leaves the comments as
/// deleting it would have left them before the write; when no comment sat
/// on the range before, the write is undone.
pub proof fn law_delete_after_add(before: Seq<Comment>, after: Seq<Comment>, f: Seq<char>, start: usize, end: usize, text: String, ctx: Vec<String>)
    requires
        comment_added(before, after, f, start, end, text, ctx),
    ensures
        after.filter(off_range(f, start, end)) == before.filter(off_range(f, start, end)),
        (forall|j: int| 0 <= j < before.len() ==> !on_range(#[trigger] before[j], f, start, end))
            ==> after.filter(off_range(f, start, end)) == before,
{
    let p = off_range(f, start, end);
    broadcast use Seq::filter_distributes_over_add;
    if exists|i: int| first_on_range(before, f, start, end, i) {
        let i = choose|i: int| first_on_range(before, f, start, end, i);
        let y = with_body(before[i], text, ctx);
        assert(before =~= before.take(i) + seq![before[i]] + before.skip(i + 1));
        assert(after =~= before.take(i) + seq![y] + before.skip(i + 1));
        lemma_filter_drops_one(before[i], p);
        lemma_filter_drops_one(y, p);
    } else {
        assert forall|j: int| 0 <= j < before.len() implies !on_range(#[trigger] before[j], f, start, end) by {
            if on_range(before[j], f, start, end) {
                lemma_first_on_range_exists(before, f, start, end, j);
            }
        }
        let x = after.last();
        assert(after =~= before + seq![x]);
        lemma_filter_drops_one(x, p);
    }
    if forall|j: int| 0 <= j < before.len() ==> !on_range(#[trigger] before[j], f, start, end) {
        lemma_filter_keeps_all(before, p);
    }
}

/// A comment on a range makes some comment the first on it.
proof fn lemma_first_on_range_exists(cs: Seq<Comment>, f: Seq<char>, start: usize, end: usize, j: int)
    requires
        0 <= j < cs.len(),
        on_range(cs[j], f, start, end),
    ensures
        exists|k: int| first_on_range(cs, f, start, end, k),
    decreases j,
{
    if exists|m: int| 0 <= m < j && on_range(cs[m], f, start, end) {
        let m = choose|m: int| 0 <= m < j && on_range(cs[m], f, start, end);
        lemma_first_on_range_exists(cs, f, start, end, m);
    } else {
        assert(first_on_range(cs, f, start, end, j));
    }
}

/// Filtering drops a single element that fails the predicate.
proof fn lemma_filter_drops_one(x: Comment, p: spec_fn(Comment) -> bool)
    requires
        !p(x),
    ensures
        seq![x].filter(p) == Seq::<Comment>::empty(),
{
    reveal(Seq::filter);
    assert(seq![x].drop_last() =~= Seq::<Comment>::empty());
    assert(Seq::<Comment>::empty().filter(p) =~= Seq::<Comment>::empty());
}

/// Filtering keeps a sequence whose elements all pass.
proof fn lemma_filter_keeps_all(s: Seq<Comment>, p: spec_fn(Comment) -> bool)
    requires
        forall|j: int| 0 <= j < s.len() ==> p(s[j]),
    ensures
        s.filter(p) == s,
    decreases s.len(),
{
    reveal(Seq::filter);
    if s.len() > 0 {
        lemma_filter_keeps_all(s.drop_last(), p);
        assert(s.drop_last().push(s.last()) =~= s);
    } else {
        assert(s.filter(p) =~= s);
    }
}

impl CommentStore {
    pub fn new() -> (s: Self)
        ensures
            s@ == Seq::<Comment>::empty(),
            unique_ranges(s@),
    {
        CommentStore { comments: Vec::new() }
    }

    /// Index of the first comment on exactly this range, if any.
    fn position_on_range(&self, file: &str, start_line: usize, end_line: usize) -> (r: Option<usize>)
        ensures
            match r {
                Some(i) => first_on_range(self@, file@, start_line, end_line, i as int),
                None => forall|j: int| 0 <= j < self@.len() ==> !on_range(#[trigger] self@[j], file@, start_line, end_line),
            },
    {
        let mut i: usize = 0;
        while i < self.comments.len()
            invariant
                i <= self.comments@.len(),
                forall|j: int| 0 <= j < i ==> !on_range(#[trigger] self.comments@[j], file@, start_line, end_line),
            decreases self.comments.len() - i,
        {
            let c = &self.comments[i];
            if str_eq(c.file.as_str(), file) && c.start_line == start_line && c.end_line == end_line {
                return Some(i);
            }
            i = i + 1;
        }
        None
    }

    /// Add a comment. If a comment already exists on the exact same range, replace
    /// its text and code context.
    pub fn add(&mut self, file: &str, start_line: usize, end_line: usize, text: String, code_context: Vec<String>)
        ensures
            comment_added(old(self)@, final(self)@, file@, start_line, end_line, text, code_context),
            unique_ranges(old(self)@) ==> unique_ranges(final(self)@),
    {
        match self.position_on_range(file, start_line, end_line) {
            Some(i) => {
                let old_c = self.comments.remove(i);
                let c = Comment { file: old_c.file, start_line: old_c.start_line, end_line: old_c.end_line, text, code_context };
                self.comments.insert(i, c);
                proof {
                    assert(self.comments@ =~= old(self).comments@.update(i as int, with_body(old(self).comments@[i as int], text, code_context)));
                    assert(first_on_range(self@, file@, start_line, end_line, i as int));
                    if unique_ranges(old(self)@) {
                        assert forall|a: int, b: int| #![trigger self@[a], self@[b]] 0 <= a < b < self@.len() implies
                            !(self@[a].file@ == self@[b].file@ && self@[a].start_line == self@[b].start_line && self@[a].end_line == self@[b].end_line) by {
                            assert(old(self)@[a].file@ == self@[a].file@ && old(self)@[b].file@ == self@[b].file@);
                            assert(old(self)@[a].start_line == self@[a].start_line && old(self)@[b].start_line == self@[b].start_line);
                            assert(old(self)@[a].end_line == self@[a].end_line && old(self)@[b].end_line == self@[b].end_line);
                        }
                    }
                    assert forall|k: int| first_on_range(old(self)@, file@, start_line, end_line, k) implies k == i by {
                        if k < i {
                        } else if k > i {
                        }
                    }
                }
            },
            None => {
                let f = to_owned_string(file);
                self.comments.push(Comment { file: f, start_line, end_line, text, code_context });
                proof {
                    assert(self.comments@.take(old(self).comments@.len() as int) =~= old(self).comments@);
                    let n = old(self)@.len() as int;
                    assert(first_on_range(self@, file@, start_line, end_line, n));
                    if unique_ranges(old(self)@) {
                        assert forall|a: int, b: int| #![trigger self@[a], self@[b]] 0 <= a < b < self@.len() implies
                            !(self@[a].file@ == self@[b].file@ && self@[a].start_line == self@[b].start_line && self@[a].end_line == self@[b].end_line) by {
                            if b == n {
                                assert(!on_range(old(self)@[a], file@, start_line, end_line));
                                assert(old(self)@[a] == self@[a]);
                            } else {
                                assert(old(self)@[a] == self@[a] && old(self)@[b] == self@[b]);
                            }
                        }
                    }
                }
            },
        }
    }

    /// Find a comment that covers the given line in the given file.
    pub fn find_at_line(&self, file: &str, line: usize) -> (r: Option<&Comment>)
        ensures
            match r {
                Some(c) => exists|i: int| first_covering(self@, file@, line, i) && self@[i] == *c,
                None => forall|j: int| 0 <= j < self@.len() ==> !covers(#[trigger] self@[j], file@, line),
            },
    {
        let mut i: usize = 0;
        while i < self.comments.len()
            invariant
                i <= self.comments@.len(),
                forall|j: int| 0 <= j < i ==> !covers(#[trigger] self.comments@[j], file@, line),
            decreases self.comments.len() - i,
        {
            let c = &self.comments[i];
            if str_eq(c.file.as_str(), file) && line >= c.start_line && line <= c.end_line {
                assert(first_covering(self@, file@, line, i as int));
                return Some(c);
            }
            i = i + 1;
        }
        None
    }

    /// Find a comment at the exact (start_line, end_line) range.
    pub fn find_exact(&self, file: &str, start_line: usize, end_line: usize) -> (r: Option<&Comment>)
        ensures
            exact_lookup(self@, file@, start_line, end_line, match r { Some(c) => Some(*c), None => None }),
    {
        match self.position_on_range(file, start_line, end_line) {
            Some(i) => Some(&self.comments[i]),
            None => None,
        }
    }

    /// Delete every comment at the exact range; returns whether one was removed.
    pub fn delete(&mut self, file: &str, start_line: usize, end_line: usize) -> (r: bool)
        ensures
            final(self)@ == old(self)@.filter(off_range(file@, start_line, end_line)),
            r == exists|j: int| 0 <= j < old(self)@.len() && on_range(#[trigger] old(self)@[j], file@, start_line, end_line),
            forall|j: int| 0 <= j < final(self)@.len() ==> !on_range(#[trigger] final(self)@[j], file@, start_line, end_line),
            unique_ranges(old(self)@) ==> unique_ranges(final(self)@),
    {
        let mut kept: Vec<Comment> = Vec::new();
        let mut removed = false;
        let mut old_comments = Vec::new();
        std::mem::swap(&mut old_comments, &mut self.comments);
        let ghost olds = old_comments@;
        for c in it: old_comments.into_iter()
            invariant
                olds == old(self).comments@,
                it.seq() == olds,
                kept@ == olds.take(it.index() as int).filter(off_range(file@, start_line, end_line)),
                removed == exists|j: int| 0 <= j < it.index() && on_range(#[trigger] olds[j], file@, start_line, end_line),
        {
            let ghost i = it.index() as int;
            proof {
                assert(olds.take(i + 1).drop_last() =~= olds.take(i));
                assert(olds[i] == c);
                reveal(Seq::filter);
                assert(olds.take(i + 1).last() == c);
            }
            let same_file = str_eq(c.file.as_str(), file);
            assert(same_file == (c.file@ == file@));
            let hit = same_file && c.start_line == start_line && c.end_line == end_line;
            assert(hit == on_range(c, file@, start_line, end_line));
            assert(hit == !off_range(file@, start_line, end_line)(c));
            if hit {
                removed = true;
            } else {
                kept.push(c);
            }
            proof {
                let t = olds.take(i + 1);
                assert(t.filter(off_range(file@, start_line, end_line)) == if off_range(file@, start_line, end_line)(t.last()) { t.drop_last().filter(off_range(file@, start_line, end_line)).push(t.last()) } else { t.drop_last().filter(off_range(file@, start_line, end_line)) });
                assert(t.last() == c);
                assert(t.drop_last() =~= olds.take(i));
                assert(kept@ == t.filter(off_range(file@, start_line, end_line)));
            }
        }
        assert(olds.take(olds.len() as int) =~= olds);
        proof {
            lemma_filter_keeps_unique(olds, off_range(file@, start_line, end_line));
            let fl = olds.filter(off_range(file@, start_line, end_line));
            assert forall|j: int| 0 <= j < fl.len() implies !on_range(#[trigger] fl[j], file@, start_line, end_line) by {
                olds.lemma_filter_pred(off_range(file@, start_line, end_line), j);
                assert(off_range(file@, start_line, end_line)(fl[j]));
            }
        }
        self.comments = kept;
        removed
    }

    /// Get all comments for a given file, sorted by start_line (stable).
    pub fn for_file(&self, file: &str) -> (r: Vec<&Comment>)
        ensures
            r@.map_values(|x: &Comment| *x) == comments_of_file(self@, file@),
    {
        let mut r: Vec<&Comment> = Vec::new();
        let mut i: usize = 0;
        while i < self.comments.len()
            invariant
                i <= self.comments@.len(),
                r@.map_values(|x: &Comment| *x) == sort_by_start(self.comments@.take(i as int).filter(in_file(file@))),
                sorted_by_start(r@.map_values(|x: &Comment| *x)),
            decreases self.comments.len() - i,
        {
            let c = &self.comments[i];
            proof {
                let t = self.comments@.take(i as int + 1);
                assert(t.drop_last() =~= self.comments@.take(i as int));
                assert(t.last() == *c);
                reveal(Seq::filter);
                assert(t.filter(in_file(file@)) == if in_file(file@)(t.last()) { t.drop_last().filter(in_file(file@)).push(t.last()) } else { t.drop_last().filter(in_file(file@)) });
            }
            if str_eq(c.file.as_str(), file) {
                proof {
                    let f = self.comments@.take(i as int).filter(in_file(file@));
                    assert(f.push(*c).drop_last() =~= f);
                }
                insert_sorted(&mut r, c);
            }
            i = i + 1;
        }
        assert(self.comments@.take(self.comments@.len() as int) =~= self.comments@);
        r
    }

    /// Relocate comments of `file` whose code context has moved to a different
    /// position in the file, keeping the length of their range. A comment whose
    /// context is not found stays where it is (`is_stale` flags it).
    pub fn relocate_comments(&mut self, file: &str, current_lines: &[String])
        requires
            forall|i: int| 0 <= i < old(self)@.len() && (#[trigger] old(self)@[i]).file@ == file@ && old(self)@[i].code_context@.len() > 0
                ==> old(self)@[i].start_line <= old(self)@[i].end_line
                    && old(self)@[i].end_line - old(self)@[i].start_line + current_lines@.len() < usize::MAX,
        ensures
            final(self)@.len() == old(self)@.len(),
            forall|i: int| 0 <= i < old(self)@.len() ==> #[trigger] final(self)@[i] == relocated(old(self)@[i], file@, lines_view(current_lines@)),
            forall|i: int| 0 <= i < old(self)@.len() && (#[trigger] old(self)@[i]).file@ == file@ && old(self)@[i].code_context@.len() > 0
                ==> final(self)@[i].file == old(self)@[i].file && final(self)@[i].code_context == old(self)@[i].code_context
                    && final(self)@[i].start_line <= final(self)@[i].end_line
                    && final(self)@[i].end_line - final(self)@[i].start_line == old(self)@[i].end_line - old(self)@[i].start_line,
    {
        proof {
            assert forall|i: int| 0 <= i < old(self)@.len() && (#[trigger] old(self)@[i]).file@ == file@ && old(self)@[i].code_context@.len() > 0
                implies ({
                    let r = relocated(old(self)@[i], file@, lines_view(current_lines@));
                    r.file == old(self)@[i].file && r.code_context == old(self)@[i].code_context
                        && r.start_line <= r.end_line && r.end_line - r.start_line == old(self)@[i].end_line - old(self)@[i].start_line
                }) by {
                assert(lines_view(current_lines@).len() == current_lines@.len());
                lemma_relocated_span(old(self)@[i], file@, lines_view(current_lines@));
            }
        }
        let ghost lines = lines_view(current_lines@);
        let mut out: Vec<Comment> = Vec::new();
        let mut olds = Vec::new();
        std::mem::swap(&mut olds, &mut self.comments);
        let ghost os = olds@;
        assert(os == old(self)@);
        assert forall|i: int| 0 <= i < os.len() && (#[trigger] os[i]).file@ == file@ && os[i].code_context@.len() > 0
            implies os[i].start_line <= os[i].end_line && os[i].end_line - os[i].start_line + current_lines@.len() < usize::MAX by {
            assert(old(self)@[i] == os[i]);
        }
        for c in it: olds.into_iter()
            invariant
                os == old(self).comments@,
                it.seq() == os,
                lines == lines_view(current_lines@),
                out@.len() == it.index(),
                forall|i: int| 0 <= i < it.index() ==> #[trigger] out@[i] == relocated(os[i], file@, lines),
                forall|i: int| 0 <= i < os.len() && (#[trigger] os[i]).file@ == file@ && os[i].code_context@.len() > 0
                    ==> os[i].start_line <= os[i].end_line
                        && os[i].end_line - os[i].start_line + current_lines@.len() < usize::MAX,
        {
            let ghost i = it.index() as int;
            assert(os[i] == c);
            let mut c = c;
            let ghost c0 = c;
            if str_eq(c.file.as_str(), file) && c.code_context.len() > 0 {
                let start: usize = if c.start_line == 0 { 0 } else { c.start_line - 1 };
                let end: usize = if c.end_line < current_lines.len() { c.end_line } else { current_lines.len() };
                let in_place = start < end && end - start == c.code_context.len() && block_matches(&c.code_context, current_lines, start);
                if !in_place {
                    match c.find_context_in(current_lines) {
                        Some(new_start) => {
                            proof {
                                let ctx = lines_view(c0.code_context@);
                                let q = choose|q: int| is_nearest_occurrence(ctx, lines, original_index(c0.start_line), q);
                                lemma_nearest_unique(ctx, lines, original_index(c0.start_line), q, new_start as int);
                            }
                            let range_len = c.end_line - c.start_line;
                            c.start_line = new_start + 1;
                            c.end_line = new_start + 1 + range_len;
                        },
                        None => {},
                    }
                }
            }
            out.push(c);
        }
        self.comments = out;
    }

    /// The files that have at least one comment, each once, in path order.
    pub fn files_with_comments(&self) -> (r: Vec<String>)
        ensures
            lines_view(r@) == sorted_files(self@),
            strictly_sorted_paths(lines_view(r@)),
            forall|x: Seq<char>| lines_view(r@).contains(x) <==> has_file(self@, x),
    {
        let mut r: Vec<String> = Vec::new();
        let mut i: usize = 0;
        while i < self.comments.len()
            invariant
                i <= self.comments@.len(),
                strictly_sorted_paths(lines_view(r@)),
                forall|x: Seq<char>| lines_view(r@).contains(x) <==> has_file(self.comments@.take(i as int), x),
            decreases self.comments.len() - i,
        {
            insert_path(&mut r, &self.comments[i].file);
            proof {
                let t = self.comments@.take(i as int + 1);
                assert forall|x: Seq<char>| has_file(t, x) <==> (has_file(self.comments@.take(i as int), x) || x == self.comments@[i as int].file@) by {
                    if has_file(t, x) {
                        let k = choose|k: int| 0 <= k < t.len() && (#[trigger] t[k]).file@ == x;
                        if k < i { assert(self.comments@.take(i as int)[k] == t[k]); }
                    }
                    if has_file(self.comments@.take(i as int), x) {
                        let k = choose|k: int| 0 <= k < i && (#[trigger] self.comments@.take(i as int)[k]).file@ == x;
                        assert(t[k] == self.comments@[k]);
                    }
                    if x == self.comments@[i as int].file@ {
                        assert(t[i as int] == self.comments@[i as int]);
                    }
                }
            }
            i = i + 1;
        }
        proof {
            assert(self.comments@.take(self.comments@.len() as int) =~= self.comments@);
            let w = lines_view(r@);
            let c = sorted_files(self@);
            assert(strictly_sorted_paths(c) && forall|x: Seq<char>| c.contains(x) <==> has_file(self@, x));
            lemma_sorted_paths_unique(w, c);
        }
        r
    }

    /// Export all comments as structured plain text.
    pub fn export(&self) -> (r: String)
        requires
            forall|i: int| 0 <= i < self@.len() ==> context_numbers_fit(#[trigger] self@[i]),
        ensures
            r@ == export_text(self@),
            self@.len() == 0 ==> r@.len() == 0,
    {
        let mut out = String::new();
        if self.comments.len() == 0 {
            proof {
                let e = Seq::<Seq<char>>::empty();
                assert(strictly_sorted_paths(e));
                assert forall|x: Seq<char>| e.contains(x) <==> has_file(self@, x) by {}
                lemma_sorted_paths_unique(e, sorted_files(self@));
            }
            return out;
        }
        let files = self.files_with_comments();
        let ghost fs = lines_view(files@);
        let mut k: usize = 0;
        while k < files.len()
            invariant
                k <= files@.len(),
                fs == lines_view(files@),
                fs == sorted_files(self@),
                forall|i: int| 0 <= i < self@.len() ==> context_numbers_fit(#[trigger] self@[i]),
                out@ == export_files(self@, fs.take(k as int)),
            decreases files.len() - k,
        {
            let ghost before = out@;
            push_str(&mut out, "## ");
            push_str(&mut out, files[k].as_str());
            push_str(&mut out, "\n\n");
            proof {
                reveal_strlit("## ");
                reveal_strlit("\n\n");
            }
            let cs = self.for_file(files[k].as_str());
            let ghost sorted = cs@.map_values(|x: &Comment| *x);
            let ghost head = out@;
            let mut j: usize = 0;
            while j < cs.len()
                invariant
                    j <= cs@.len(),
                    sorted == cs@.map_values(|x: &Comment| *x),
                    sorted == comments_of_file(self@, files@[k as int]@),
                    forall|i: int| 0 <= i < self@.len() ==> context_numbers_fit(#[trigger] self@[i]),
                    out@ == head + export_comments(sorted.take(j as int)),
                decreases cs.len() - j,
            {
                proof {
                    lemma_sort_by_start_members(self@.filter(in_file(files@[k as int]@)));
                    let c = sorted[j as int];
                    let m = choose|m: int| 0 <= m < self@.filter(in_file(files@[k as int]@)).len() && self@.filter(in_file(files@[k as int]@))[m] == c;
                    lemma_filter_member(self@, in_file(files@[k as int]@), m);
                }
                export_one(&mut out, cs[j]);
                proof {
                    let t = sorted.take(j as int + 1);
                    assert(t.drop_last() =~= sorted.take(j as int));
                }
                j = j + 1;
            }
            proof {
                assert(sorted.take(cs@.len() as int) =~= sorted);
                let t = fs.take(k as int + 1);
                assert(t.drop_last() =~= fs.take(k as int));
                assert(out@ =~= before + export_file(self@, fs[k as int]));
            }
            k = k + 1;
        }
        assert(fs.take(files@.len() as int) =~= fs);
        out
    }

    /// Return the number of comments.
    pub fn len(&self) -> (r: usize)
        ensures
            r == self@.len(),
    {
        self.comments.len()
    }

    /// Check if there are any comments.
    pub fn is_empty(&self) -> (r: bool)
        ensures
            r == (self@.len() == 0),
    {
        self.comments.len() == 0
    }
}

/// Whether every comment's context line numbers fit the export (see
/// [`context_numbers_fit`]).
pub fn contexts_fit(store: &CommentStore) -> (r: bool)
    ensures
        r == forall|i: int| 0 <= i < store@.len() ==> context_numbers_fit(#[trigger] store@[i]),
{
    let mut i: usize = 0;
    while i < store.comments.len()
        invariant
            i <= store@.len(),
            store@ == store.comments@,
            forall|j: int| 0 <= j < i ==> context_numbers_fit(#[trigger] store@[j]),
        decreases store.comments.len() - i,
    {
        let c = &store.comments[i];
        if c.code_context.len() > 0 && c.start_line > usize::MAX - (c.code_context.len() - 1) {
            assert(!context_numbers_fit(store@[i as int]));
            return false;
        }
        i = i + 1;
    }
    true
}

/// Whether every comment with context has an ordered range whose length,
/// with `line_count`, stays below the largest `usize`, as relocation against
/// `line_count` lines needs.
pub fn ranges_fit(store: &CommentStore, line_count: usize) -> (r: bool)
    ensures
        r == forall|i: int| 0 <= i < store@.len() && (#[trigger] store@[i]).code_context@.len() > 0
            ==> store@[i].start_line <= store@[i].end_line && store@[i].end_line - store@[i].start_line + line_count < usize::MAX,
{
    let mut i: usize = 0;
    while i < store.comments.len()
        invariant
            i <= store@.len(),
            store@ == store.comments@,
            forall|j: int| 0 <= j < i && (#[trigger] store@[j]).code_context@.len() > 0
                ==> store@[j].start_line <= store@[j].end_line && store@[j].end_line - store@[j].start_line + line_count < usize::MAX,
        decreases store.comments.len() - i,
    {
        let c = &store.comments[i];
        if c.code_context.len() > 0 {
            if c.start_line > c.end_line || c.end_line - c.start_line >= usize::MAX - line_count {
                return false;
            }
        }
        i = i + 1;
    }
    true
}

} // verus!
