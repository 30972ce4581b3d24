//! The minimap: one marker per row summarising the lines mapped to it.
use vstd::prelude::*;
use crate::comments::Comment;
use crate::diff::{DiffLineKind, UnifiedDiffLine};
use crate::file_viewer::diff_state::{DiffState, displayed};
use crate::file_viewer::Area;

verus! {

/// The marker shown in a minimap row.
#[derive(Debug, Clone, Copy, PartialEq, Eq, Structural)]
pub enum MinimapMarker {
    Added,
    Modified,
    Removed,
    Comment,
    StaleComment,
}

/// The marker a line-diff kind gets.
pub open spec fn kind_marker(k: DiffLineKind) -> Option<MinimapMarker> {
    match k {
        DiffLineKind::Added => Some(MinimapMarker::Added),
        DiffLineKind::Modified => Some(MinimapMarker::Modified),
        DiffLineKind::Unchanged => None,
    }
}

/// The marker a unified-diff row gets.
pub open spec fn row_marker(l: UnifiedDiffLine) -> Option<MinimapMarker> {
    match l {
        UnifiedDiffLine::Added(_) => Some(MinimapMarker::Added),
        UnifiedDiffLine::Removed(_) => Some(MinimapMarker::Removed),
        _ => None,
    }
}

/// A comment marker (which diff markers never replace).
pub open spec fn holds_comment(m: Option<MinimapMarker>) -> bool {
    m == Some(MinimapMarker::Comment) || m == Some(MinimapMarker::StaleComment)
}

/// Row `row` gets diff marker `m`, unless it holds a comment marker.
pub open spec fn put_diff_marker(ms: Seq<Option<MinimapMarker>>, row: int, m: Option<MinimapMarker>) -> Seq<Option<MinimapMarker>> {
    if m is Some && 0 <= row < ms.len() && !holds_comment(ms[row]) { ms.update(row, m) } else { ms }
}

/// No markers on `h` rows.
pub open spec fn no_markers(h: nat) -> Seq<Option<MinimapMarker>> {
    Seq::new(h, |i: int| None::<MinimapMarker>)
}

/// The kind of 1-indexed line `n` in a line diff.
pub open spec fn kind_at(ld: Seq<DiffLineKind>, n: int) -> DiffLineKind {
    if 1 <= n <= ld.len() { ld[n - 1] } else { DiffLineKind::Unchanged }
}

/// Markers of file lines `1..=n` of a line diff over `total` lines on `h` rows.
pub open spec fn normal_markers(ld: Seq<DiffLineKind>, total: int, h: nat, n: int) -> Seq<Option<MinimapMarker>>
    decreases n,
{
    if n <= 0 {
        no_markers(h)
    } else {
        put_diff_marker(normal_markers(ld, total, h, n - 1), (n - 1) * h / total, kind_marker(kind_at(ld, n)))
    }
}

/// Markers of the first `n` displayed unified-diff rows on `h` rows.
pub open spec fn unified_markers(rows: Seq<UnifiedDiffLine>, total: int, h: nat, n: int) -> Seq<Option<MinimapMarker>>
    decreases n,
{
    if n <= 0 {
        no_markers(h)
    } else {
        put_diff_marker(unified_markers(rows, total, h, n - 1), (n - 1) * h / (if total > 1 { total } else { 1 }), row_marker(rows[n - 1]))
    }
}

/// Lines `first..=last` of a comment marked with `m`.
pub open spec fn comment_lines_marked(ms: Seq<Option<MinimapMarker>>, first: int, last: int, total: int, h: nat, m: MinimapMarker) -> Seq<Option<MinimapMarker>>
    decreases last - first + 1,
{
    if last < first {
        ms
    } else {
        let prev = comment_lines_marked(ms, first, last - 1, total, h, m);
        let idx = if last >= 1 { last - 1 } else { 0 };
        let row = idx * h / (if total > 1 { total } else { 1 });
        if row < prev.len() { prev.update(row, Some(m)) } else { prev }
    }
}

/// The marker of a comment, stale or not.
pub open spec fn comment_marker(stale: bool) -> MinimapMarker {
    if stale { MinimapMarker::StaleComment } else { MinimapMarker::Comment }
}

/// The markers after the comments' lines are marked, in order.
pub open spec fn with_comment_markers(ms: Seq<Option<MinimapMarker>>, cs: Seq<(Comment, bool)>, total: int, h: nat) -> Seq<Option<MinimapMarker>>
    decreases cs.len(),
{
    if cs.len() == 0 {
        ms
    } else {
        let c = cs.last();
        comment_lines_marked(with_comment_markers(ms, cs.drop_last(), total, h),
            c.0.start_line as int, c.0.end_line as int, total, h, comment_marker(c.1))
    }
}

/// The diff markers of the viewed file: from the unified diff in diff mode,
/// from the line diff otherwise.
pub open spec fn diff_markers(total: int, h: nat, d: DiffState) -> Seq<Option<MinimapMarker>> {
    if d.diff_mode {
        match d.unified_diff {
            Some(u) => unified_markers(displayed(u.lines@), total, h, displayed(u.lines@).len() as int),
            None => no_markers(h),
        }
    } else {
        match d.line_diff {
            Some(ld) => normal_markers(ld.lines@, total, h, total),
            None => no_markers(h),
        }
    }
}

/// The minimap of a file of `total` lines on `h` rows: diff markers, then
/// comment markers over them.
pub open spec fn minimap_markers(total: int, h: nat, d: DiffState, cs: Seq<(Comment, bool)>) -> Seq<Option<MinimapMarker>> {
    if total == 0 || h == 0 {
        no_markers(h)
    } else {
        with_comment_markers(diff_markers(total, h, d), cs, total, h)
    }
}

/// The minimap row of 1-indexed line `line` of `total` lines on `h` rows.
#[verifier::opaque]
pub open spec fn line_row(line: int, total: int, h: nat) -> int {
    (line - 1) * h / total
}

proof fn lemma_line_row_bounds(line: int, total: int, h: nat)
    requires
        1 <= line <= total,
        h > 0,
    ensures
        0 <= line_row(line, total, h) < h,
        line_row(line, total, h) == (line - 1) * h / total,
{
    reveal(line_row);
    assert(0 <= (line - 1) * h) by (nonlinear_arith)
        requires 1 <= line, h > 0;
    assert((line - 1) * h < total * h) by (nonlinear_arith)
        requires line <= total, h > 0;
    assert((line - 1) * h / total < h) by (nonlinear_arith)
        requires (line - 1) * h < total * h, total > 0, 0 <= (line - 1) * h;
    assert(0 <= (line - 1) * h / total) by (nonlinear_arith)
        requires 0 <= (line - 1) * h, total > 0;
}

/// The marker a changed line shows.
pub open spec fn change_marker(k: DiffLineKind) -> Option<MinimapMarker> {
    Some(if k == DiffLineKind::Added { MinimapMarker::Added } else { MinimapMarker::Modified })
}

/// Row `r` of `ms` is blank exactly when the lines `1..=n` mapped to it are
/// all unchanged.
#[verifier::opaque]
pub open spec fn blank_rows(ms: Seq<Option<MinimapMarker>>, ld: Seq<DiffLineKind>, total: int, h: nat, n: int) -> bool {
    forall|r: int| 0 <= r < h ==> ((#[trigger] ms[r]) is None
        <==> forall|i: int| 1 <= i <= n && line_row(i, total, h) == r ==> #[trigger] kind_at(ld, i) == DiffLineKind::Unchanged)
}

/// Each changed line among `1..=n` that no later changed line shares a row
/// with shows its change on its row.
#[verifier::opaque]
pub open spec fn last_changes_shown(ms: Seq<Option<MinimapMarker>>, ld: Seq<DiffLineKind>, total: int, h: nat, n: int) -> bool {
    forall|i: int| 1 <= i <= n && #[trigger] kind_at(ld, i) != DiffLineKind::Unchanged
        && (forall|j: int| i < j <= n && line_row(j, total, h) == line_row(i, total, h) ==> #[trigger] kind_at(ld, j) == DiffLineKind::Unchanged)
        ==> ms[line_row(i, total, h)] == change_marker(kind_at(ld, i))
}

proof fn lemma_step_blank(ld: Seq<DiffLineKind>, total: int, h: nat, n: int)
    requires
        1 <= n <= total,
        h > 0,
        normal_markers(ld, total, h, n - 1).len() == h,
        forall|r: int| 0 <= r < h ==> !holds_comment(#[trigger] normal_markers(ld, total, h, n - 1)[r]),
        blank_rows(normal_markers(ld, total, h, n - 1), ld, total, h, n - 1),
    ensures
        blank_rows(normal_markers(ld, total, h, n), ld, total, h, n),
{
    reveal(blank_rows);
    lemma_line_row_bounds(n, total, h);
    let prev = normal_markers(ld, total, h, n - 1);
    let ms = normal_markers(ld, total, h, n);
    let row = line_row(n, total, h);
    let mk = kind_marker(kind_at(ld, n));
    assert(ms == put_diff_marker(prev, row, mk));
    assert forall|r: int| 0 <= r < h implies ((#[trigger] ms[r]) is None
        <==> forall|i: int| 1 <= i <= n && line_row(i, total, h) == r ==> #[trigger] kind_at(ld, i) == DiffLineKind::Unchanged) by {
        assert(!holds_comment(prev[row]));
        if r == row && mk is Some {
            assert(ms[r] is Some);
            assert(kind_at(ld, n) != DiffLineKind::Unchanged);
        } else {
            assert(ms[r] == prev[r]);
            if prev[r] is None {
                assert forall|i: int| 1 <= i <= n && line_row(i, total, h) == r implies #[trigger] kind_at(ld, i) == DiffLineKind::Unchanged by {
                    if i < n {
                        assert(kind_at(ld, i) == DiffLineKind::Unchanged);
                    }
                }
            } else {
                let w = choose|i: int| !(1 <= i <= n - 1 && line_row(i, total, h) == r ==> #[trigger] kind_at(ld, i) == DiffLineKind::Unchanged);
                assert(!(1 <= w <= n && line_row(w, total, h) == r ==> kind_at(ld, w) == DiffLineKind::Unchanged));
            }
        }
    }
}

proof fn lemma_last_at(ld: Seq<DiffLineKind>, total: int, h: nat, n: int, i: int)
    requires
        1 <= i < n <= total,
        h > 0,
        kind_at(ld, i) != DiffLineKind::Unchanged,
        forall|j: int| i < j <= n && line_row(j, total, h) == line_row(i, total, h) ==> #[trigger] kind_at(ld, j) == DiffLineKind::Unchanged,
        last_changes_shown(normal_markers(ld, total, h, n - 1), ld, total, h, n - 1),
    ensures
        normal_markers(ld, total, h, n - 1)[line_row(i, total, h)] == change_marker(kind_at(ld, i)),
{
    reveal(last_changes_shown);
    assert(forall|j: int| i < j <= n - 1 && line_row(j, total, h) == line_row(i, total, h) ==> #[trigger] kind_at(ld, j) == DiffLineKind::Unchanged);
}

proof fn lemma_step_last_at(ld: Seq<DiffLineKind>, total: int, h: nat, n: int, i: int)
    requires
        1 <= n <= total,
        h > 0,
        normal_markers(ld, total, h, n - 1).len() == h,
        forall|r: int| 0 <= r < h ==> !holds_comment(#[trigger] normal_markers(ld, total, h, n - 1)[r]),
        last_changes_shown(normal_markers(ld, total, h, n - 1), ld, total, h, n - 1),
        1 <= i <= n,
        kind_at(ld, i) != DiffLineKind::Unchanged,
        forall|j: int| i < j <= n && line_row(j, total, h) == line_row(i, total, h) ==> #[trigger] kind_at(ld, j) == DiffLineKind::Unchanged,
    ensures
        normal_markers(ld, total, h, n)[line_row(i, total, h)] == change_marker(kind_at(ld, i)),
{
    lemma_line_row_bounds(n, total, h);
    lemma_line_row_bounds(i, total, h);
    let prev = normal_markers(ld, total, h, n - 1);
    let ms = normal_markers(ld, total, h, n);
    let row = line_row(n, total, h);
    let mk = kind_marker(kind_at(ld, n));
    assert(ms == put_diff_marker(prev, row, mk));
    assert(!holds_comment(prev[row]));
    if i < n {
        if line_row(i, total, h) == row {
            assert(kind_at(ld, n) == DiffLineKind::Unchanged);
        }
        lemma_last_at(ld, total, h, n, i);
    }
}

proof fn lemma_step_last(ld: Seq<DiffLineKind>, total: int, h: nat, n: int)
    requires
        1 <= n <= total,
        h > 0,
        normal_markers(ld, total, h, n - 1).len() == h,
        forall|r: int| 0 <= r < h ==> !holds_comment(#[trigger] normal_markers(ld, total, h, n - 1)[r]),
        last_changes_shown(normal_markers(ld, total, h, n - 1), ld, total, h, n - 1),
    ensures
        last_changes_shown(normal_markers(ld, total, h, n), ld, total, h, n),
{
    let ms = normal_markers(ld, total, h, n);
    assert forall|i: int| 1 <= i <= n && #[trigger] kind_at(ld, i) != DiffLineKind::Unchanged
        && (forall|j: int| i < j <= n && line_row(j, total, h) == line_row(i, total, h) ==> #[trigger] kind_at(ld, j) == DiffLineKind::Unchanged)
        implies ms[line_row(i, total, h)] == change_marker(kind_at(ld, i)) by {
        lemma_step_last_at(ld, total, h, n, i);
    }
    lemma_last_changes_intro(ms, ld, total, h, n);
}

proof fn lemma_last_changes_intro(ms: Seq<Option<MinimapMarker>>, ld: Seq<DiffLineKind>, total: int, h: nat, n: int)
    requires
        forall|i: int| 1 <= i <= n && #[trigger] kind_at(ld, i) != DiffLineKind::Unchanged
            && (forall|j: int| i < j <= n && line_row(j, total, h) == line_row(i, total, h) ==> #[trigger] kind_at(ld, j) == DiffLineKind::Unchanged)
            ==> ms[line_row(i, total, h)] == change_marker(kind_at(ld, i)),
    ensures
        last_changes_shown(ms, ld, total, h, n),
{
    reveal(last_changes_shown);
}

proof fn lemma_normal_markers(ld: Seq<DiffLineKind>, total: int, h: nat, n: int)
    requires
        0 <= n <= total,
        h > 0,
    ensures
        normal_markers(ld, total, h, n).len() == h,
        forall|r: int| 0 <= r < h ==> !holds_comment(#[trigger] normal_markers(ld, total, h, n)[r]),
        blank_rows(normal_markers(ld, total, h, n), ld, total, h, n),
        last_changes_shown(normal_markers(ld, total, h, n), ld, total, h, n),
    decreases n,
{
    if n > 0 {
        lemma_normal_markers(ld, total, h, n - 1);
        lemma_step_blank(ld, total, h, n);
        lemma_step_last(ld, total, h, n);
        lemma_line_row_bounds(n, total, h);
        let prev = normal_markers(ld, total, h, n - 1);
        let ms = normal_markers(ld, total, h, n);
        assert(ms == put_diff_marker(prev, line_row(n, total, h), kind_marker(kind_at(ld, n))));
        assert forall|r: int| 0 <= r < h implies !holds_comment(#[trigger] ms[r]) by {
            assert(!holds_comment(prev[r]));
        }
    } else {
        assert forall|r: int| 0 <= r < h implies !holds_comment(#[trigger] normal_markers(ld, total, h, n)[r]) by {}
        reveal(blank_rows);
        reveal(last_changes_shown);
    }
}

/// Without comments and outside diff mode, the minimap shows the line diff:
/// a row is blank exactly when every line mapped to it is unchanged, and a
/// row shows the change of the last changed line mapped to it (added or
/// modified), so every changed line leaves a marker unless a later changed
/// line on the same row replaces it.
pub proof fn law_minimap_line_markers(total: int, h: nat, d: DiffState, ld: Seq<DiffLineKind>)
    requires
        total > 0,
        h > 0,
        !d.diff_mode,
        d.line_diff matches Some(l) && l.lines@ == ld,
    ensures
        minimap_markers(total, h, d, Seq::empty()).len() == h,
        blank_rows(minimap_markers(total, h, d, Seq::empty()), ld, total, h, total),
        last_changes_shown(minimap_markers(total, h, d, Seq::empty()), ld, total, h, total),
{
    lemma_normal_markers(ld, total, h, total);
    assert(minimap_markers(total, h, d, Seq::empty()) == normal_markers(ld, total, h, total));
}

/// The minimap row a comment on 1-indexed line `line` marks.
pub open spec fn comment_row(line: int, total: int, h: nat) -> int {
    (if line >= 1 { line - 1 } else { 0 }) * h / (if total > 1 { total } else { 1 })
}

proof fn lemma_comment_lines_marked(ms: Seq<Option<MinimapMarker>>, first: int, last: int, total: int, h: nat, m: MinimapMarker)
    requires
        m == MinimapMarker::Comment || m == MinimapMarker::StaleComment,
    ensures
        comment_lines_marked(ms, first, last, total, h, m).len() == ms.len(),
        forall|r: int| 0 <= r < ms.len() && holds_comment(ms[r]) ==> holds_comment(#[trigger] comment_lines_marked(ms, first, last, total, h, m)[r]),
        forall|l: int| first <= l <= last && 0 <= #[trigger] comment_row(l, total, h) < ms.len()
            ==> holds_comment(comment_lines_marked(ms, first, last, total, h, m)[comment_row(l, total, h)]),
    decreases last - first + 1,
{
    if last >= first {
        lemma_comment_lines_marked(ms, first, last - 1, total, h, m);
        let prev = comment_lines_marked(ms, first, last - 1, total, h, m);
        let res = comment_lines_marked(ms, first, last, total, h, m);
        let row = comment_row(last, total, h);
        assert forall|r: int| 0 <= r < ms.len() && holds_comment(ms[r]) implies holds_comment(#[trigger] res[r]) by {
            assert(holds_comment(prev[r]));
        }
        assert forall|l: int| first <= l <= last && 0 <= #[trigger] comment_row(l, total, h) < ms.len()
            implies holds_comment(res[comment_row(l, total, h)]) by {
            if l < last {
                assert(holds_comment(prev[comment_row(l, total, h)]));
            }
        }
    }
}

proof fn lemma_with_comment_markers(ms: Seq<Option<MinimapMarker>>, cs: Seq<(Comment, bool)>, total: int, h: nat)
    ensures
        with_comment_markers(ms, cs, total, h).len() == ms.len(),
        forall|k: int, l: int| #![trigger cs[k], comment_row(l, total, h)]
            0 <= k < cs.len() && cs[k].0.start_line <= l <= cs[k].0.end_line && 0 <= comment_row(l, total, h) < ms.len()
            ==> holds_comment(with_comment_markers(ms, cs, total, h)[comment_row(l, total, h)]),
    decreases cs.len(),
{
    if cs.len() > 0 {
        let d = cs.drop_last();
        let c = cs.last();
        lemma_with_comment_markers(ms, d, total, h);
        let prev = with_comment_markers(ms, d, total, h);
        lemma_comment_lines_marked(prev, c.0.start_line as int, c.0.end_line as int, total, h, comment_marker(c.1));
        let res = with_comment_markers(ms, cs, total, h);
        assert forall|k: int, l: int| #![trigger cs[k], comment_row(l, total, h)]
            0 <= k < cs.len() && cs[k].0.start_line <= l <= cs[k].0.end_line && 0 <= comment_row(l, total, h) < ms.len()
            implies holds_comment(res[comment_row(l, total, h)]) by {
            if k < cs.len() - 1 {
                assert(d[k] == cs[k]);
                assert(holds_comment(prev[comment_row(l, total, h)]));
            }
        }
    }
}

/// Comments take precedence on the minimap: every row onto which a line of a
/// comment maps shows a comment marker (stale or not), whatever the diff.
pub proof fn law_minimap_comment_rows(total: int, h: nat, d: DiffState, cs: Seq<(Comment, bool)>, k: int, l: int)
    requires
        total > 0,
        h > 0,
        0 <= k < cs.len(),
        cs[k].0.start_line <= l <= cs[k].0.end_line,
        0 <= comment_row(l, total, h) < h,
    ensures
        holds_comment(minimap_markers(total, h, d, cs)[comment_row(l, total, h)]),
{
    let base = diff_markers(total, h, d);
    assert(base.len() == h) by {
        if d.diff_mode {
            match d.unified_diff {
                Some(u) => lemma_unified_markers_len(displayed(u.lines@), total, h, displayed(u.lines@).len() as int),
                None => {},
            }
        } else {
            match d.line_diff {
                Some(ld) => lemma_normal_markers(ld.lines@, total, h, total),
                None => {},
            }
        }
    }
    lemma_with_comment_markers(base, cs, total, h);
    assert(cs[k].0.start_line <= l);
}

proof fn lemma_unified_markers_len(rows: Seq<UnifiedDiffLine>, total: int, h: nat, n: int)
    ensures
        unified_markers(rows, total, h, n).len() == h,
    decreases n,
{
    if n > 0 {
        lemma_unified_markers_len(rows, total, h, n - 1);
    }
}

/// Compute the marker of each of `minimap_height` rows for a file of
/// `total_lines` lines: the line or diff markers of the lines mapped to the
/// row, with comment markers taking precedence over diff markers.
pub fn compute_markers(total_lines: usize, minimap_height: usize, diff: &DiffState, comments: &[(Comment, bool)]) -> (r: Vec<Option<MinimapMarker>>)
    requires
        total_lines * minimap_height <= usize::MAX,
        diff.diff_mode && diff.unified_diff is Some ==> displayed(diff.unified_diff->0.lines@).len() * minimap_height <= usize::MAX,
        forall|i: int| 0 <= i < comments@.len() ==> (#[trigger] comments@[i]).0.end_line * minimap_height <= usize::MAX,
    ensures
        r@ == minimap_markers(total_lines as int, minimap_height as nat, *diff, comments@),
        r@.len() == minimap_height,
{
    let mut markers: Vec<Option<MinimapMarker>> = Vec::new();
    let mut k: usize = 0;
    while k < minimap_height
        invariant
            k <= minimap_height,
            markers@ == no_markers(k as nat),
        decreases minimap_height - k,
    {
        markers.push(None);
        k = k + 1;
        assert(markers@ =~= no_markers(k as nat));
    }
    if total_lines == 0 || minimap_height == 0 {
        return markers;
    }
    let h = minimap_height;
    let ghost hn = h as nat;
    if diff.diff_mode {
        if let Some(ud) = &diff.unified_diff {
            let ghost rows = displayed(ud.lines@);
            let mut disp: Vec<&UnifiedDiffLine> = Vec::new();
            let mut j: usize = 0;
            while j < ud.lines.len()
                invariant
                    j <= ud.lines@.len(),
                    disp@.len() == displayed(ud.lines@.take(j as int)).len(),
                    forall|q: int| 0 <= q < disp@.len() ==> *disp@[q] == displayed(ud.lines@.take(j as int))[q],
                decreases ud.lines.len() - j,
            {
                proof {
                    let t = ud.lines@.take(j as int + 1);
                    assert(t.drop_last() =~= ud.lines@.take(j as int));
                    reveal(Seq::filter);
                    assert(t.last() == ud.lines@[j as int]);
                }
                match &ud.lines[j] {
                    UnifiedDiffLine::HunkHeader(_) => {},
                    l => {
                        disp.push(l);
                    },
                }
                j = j + 1;
            }
            proof {
                assert(ud.lines@.take(ud.lines@.len() as int) =~= ud.lines@);
            }
            let divisor = if total_lines > 1 { total_lines } else { 1 };
            let mut i: usize = 0;
            while i < disp.len()
                invariant
                    i <= disp@.len(),
                    disp@.len() == rows.len(),
                    forall|q: int| 0 <= q < disp@.len() ==> *disp@[q] == rows[q],
                    rows.len() * h <= usize::MAX,
                    divisor == (if total_lines > 1 { total_lines } else { 1 }),
                    h == minimap_height,
                    hn == h,
                    markers@.len() == h,
                    markers@ == unified_markers(rows, total_lines as int, hn, i as int),
                decreases disp.len() - i,
            {
                proof {
                    assert(i * h <= rows.len() * h) by (nonlinear_arith)
                        requires i < rows.len();
                }
                let row = i * h / divisor;
                let m = match disp[i] {
                    UnifiedDiffLine::Added(_) => Some(MinimapMarker::Added),
                    UnifiedDiffLine::Removed(_) => Some(MinimapMarker::Removed),
                    _ => None,
                };
                if m.is_some() && row < markers.len() {
                    let held = markers[row];
                    if held != Some(MinimapMarker::Comment) && held != Some(MinimapMarker::StaleComment) {
                        markers.set(row, m);
                    }
                }
                i = i + 1;
            }
        }
    } else {
        if let Some(ld) = &diff.line_diff {
            let mut n0: usize = 0;
            while n0 < total_lines
                invariant
                    n0 <= total_lines,
                    total_lines * h <= usize::MAX,
                    total_lines > 0,
                    h == minimap_height,
                    hn == h,
                    markers@.len() == h,
                    markers@ == normal_markers(ld.lines@, total_lines as int, hn, n0 as int),
                decreases total_lines - n0,
            {
                proof {
                    assert(n0 * h <= total_lines * h) by (nonlinear_arith)
                        requires n0 < total_lines;
                }
                let n = n0 + 1;
                let row = n0 * h / total_lines;
                let kind = ld.line_kind(n);
                let m = match kind {
                    DiffLineKind::Added => Some(MinimapMarker::Added),
                    DiffLineKind::Modified => Some(MinimapMarker::Modified),
                    DiffLineKind::Unchanged => None,
                };
                if m.is_some() && row < markers.len() {
                    let held = markers[row];
                    if held != Some(MinimapMarker::Comment) && held != Some(MinimapMarker::StaleComment) {
                        markers.set(row, m);
                    }
                }
                n0 = n0 + 1;
            }
        }
    }
    let ghost base = markers@;
    let divisor = if total_lines > 1 { total_lines } else { 1 };
    let mut c: usize = 0;
    while c < comments.len()
        invariant
            c <= comments@.len(),
            h == minimap_height,
            hn == h,
            markers@.len() == h,
            divisor == (if total_lines > 1 { total_lines } else { 1 }),
            forall|i: int| 0 <= i < comments@.len() ==> (#[trigger] comments@[i]).0.end_line * h <= usize::MAX,
            markers@ == with_comment_markers(base, comments@.take(c as int), total_lines as int, hn),
        decreases comments.len() - c,
    {
        proof {
            let t = comments@.take(c as int + 1);
            assert(t.drop_last() =~= comments@.take(c as int));
        }
        let (comment, is_stale) = &comments[c];
        let marker = if *is_stale { MinimapMarker::StaleComment } else { MinimapMarker::Comment };
        let ghost before = markers@;
        if comment.start_line <= comment.end_line {
            let mut line = comment.start_line;
            loop
                invariant_except_break
                    markers@ == comment_lines_marked(before, comment.start_line as int, line - 1, total_lines as int, hn, marker),
                invariant
                    comment.start_line <= line <= comment.end_line,
                    comment.end_line * h <= usize::MAX,
                    h == minimap_height,
                    hn == h,
                    markers@.len() == h,
                    before.len() == h,
                    divisor == (if total_lines > 1 { total_lines } else { 1 }),
                ensures
                    markers@ == comment_lines_marked(before, comment.start_line as int, comment.end_line as int, total_lines as int, hn, marker),
                    markers@.len() == h,
                decreases comment.end_line - line,
            {
                let idx = if line >= 1 { line - 1 } else { 0 };
                proof {
                    assert(idx * h <= comment.end_line * h) by (nonlinear_arith)
                        requires idx <= comment.end_line;
                }
                let row = idx * h / divisor;
                if row < h {
                    markers.set(row, Some(marker));
                }
                if line == comment.end_line {
                    break;
                }
                line = line + 1;
            }
        }
        c = c + 1;
    }
    proof {
        assert(comments@.take(comments@.len() as int) =~= comments@);
    }
    markers
}

/// The file line (0-indexed) that minimap row `row` of `minimap_height`
/// rows stands for in a file of `total_lines` lines.
pub fn row_to_line(row: u16, minimap_height: u16, total_lines: usize) -> (r: usize)
    requires
        row * total_lines <= usize::MAX,
    ensures
        r == (if minimap_height == 0 || total_lines == 0 {
            0
        } else if row * total_lines / minimap_height as int <= total_lines - 1 {
            row * total_lines / minimap_height as int
        } else {
            total_lines - 1
        }),
{
    if minimap_height == 0 || total_lines == 0 {
        return 0;
    }
    let x = (row as usize) * total_lines / (minimap_height as usize);
    if x <= total_lines - 1 { x } else { total_lines - 1 }
}

/// The narrowest viewer content area that shows a minimap.
pub const MINIMAP_MIN_WIDTH: u16 = 30;

/// The width of the minimap: a marker column and a viewport column.
pub const MINIMAP_WIDTH: u16 = 2;

/// The content area and the minimap area of the viewer's inner area: a file
/// at least [`MINIMAP_MIN_WIDTH`] wide gives up its last [`MINIMAP_WIDTH`]
/// columns to the minimap; anything else has no minimap.
pub open spec fn minimap_split(inner: Area, shows_file: bool) -> (Area, Option<Area>) {
    if shows_file && inner.width >= MINIMAP_MIN_WIDTH {
        let w = (inner.width - MINIMAP_WIDTH) as u16;
        (Area { width: w, ..inner }, Some(Area { x: (inner.x + w) as u16, width: MINIMAP_WIDTH, ..inner }))
    } else {
        (inner, None)
    }
}

/// Split the viewer's inner area into its content area and, for a file wide
/// enough, the minimap at its right edge.
pub fn split_minimap(inner: Area, shows_file: bool) -> (r: (Area, Option<Area>))
    requires
        inner.x + inner.width <= u16::MAX,
    ensures
        r == minimap_split(inner, shows_file),
{
    if shows_file && inner.width >= MINIMAP_MIN_WIDTH {
        let w = inner.width - MINIMAP_WIDTH;
        (Area { width: w, ..inner }, Some(Area { x: inner.x + w, width: MINIMAP_WIDTH, ..inner }))
    } else {
        (inner, None)
    }
}

/// `ceil(n / d)` for `d > 0`.
pub open spec fn ceil_div(n: int, d: int) -> int {
    n / d + if n % d == 0 { 0int } else { 1int }
}

/// The virtual rows `[start, end)` of a minimap `virtual_h` rows high that
/// the viewport covers: from the row of the first visible line to the row
/// (rounded up) past the last, at least one row; all rows for an empty file.
pub open spec fn viewport_span(total: int, scroll: int, visible: int, virtual_h: int) -> (int, int) {
    if total > 0 {
        let start = scroll * virtual_h / total;
        let shown = if visible <= total { visible } else { total };
        let end = ceil_div((scroll + shown) * virtual_h, total);
        let end = if end <= virtual_h { end } else { virtual_h };
        (start, if end >= start + 1 { end } else { start + 1 })
    } else {
        (0, virtual_h)
    }
}

/// The virtual minimap rows the viewport covers (see [`viewport_span`]).
pub fn viewport_rows(total_lines: usize, scroll_offset: usize, visible_height: usize, virtual_h: usize) -> (r: (usize, usize))
    requires
        scroll_offset + (if visible_height <= total_lines { visible_height } else { total_lines }) <= usize::MAX,
        (scroll_offset + (if visible_height <= total_lines { visible_height } else { total_lines })) * virtual_h < usize::MAX,
    ensures
        r.0 == viewport_span(total_lines as int, scroll_offset as int, visible_height as int, virtual_h as int).0,
        r.1 == viewport_span(total_lines as int, scroll_offset as int, visible_height as int, virtual_h as int).1,
{
    if total_lines > 0 {
        let shown = if visible_height <= total_lines { visible_height } else { total_lines };
        let reach = scroll_offset + shown;
        proof {
            assert(scroll_offset * virtual_h <= reach * virtual_h) by (nonlinear_arith)
                requires scroll_offset <= reach;
        }
        let start = scroll_offset * virtual_h / total_lines;
        let numer = reach * virtual_h;
        let end = numer / total_lines + if numer % total_lines == 0 { 0 } else { 1 };
        let end = if end <= virtual_h { end } else { virtual_h };
        (start, if end >= start + 1 { end } else { start + 1 })
    } else {
        (0, virtual_h)
    }
}

} // verus!
