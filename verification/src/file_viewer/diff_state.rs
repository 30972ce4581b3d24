//! Diff data of the viewed file and the mapping between diff rows and file
//! lines.
use vstd::prelude::*;
use crate::diff::{LineDiff, UnifiedDiff, UnifiedDiffLine};
use crate::file_tree::{next_unset, prev_unset, next_unset_index, prev_unset_index};
use crate::text::chars_of;

verus! {

/// The largest line number the mapping records; larger numbers are kept at
/// this value.
pub open spec fn line_cap() -> nat {
    isize::MAX as nat
}

/// `n`, or [`line_cap`] when it is larger.
pub open spec fn capped(n: nat) -> nat {
    if n <= line_cap() { n } else { line_cap() }
}

/// Whether `c` is an ASCII digit.
pub open spec fn is_digit(c: char) -> bool {
    '0' <= c <= '9'
}

/// The index of the first `+` of `h` at or after `i`, or -1.
pub open spec fn plus_from(h: Seq<char>, i: int) -> int
    decreases h.len() - i,
{
    if i < 0 || i >= h.len() {
        -1
    } else if h[i] == '+' {
        i
    } else {
        plus_from(h, i + 1)
    }
}

/// The decimal number made of `acc` followed by the run of digits of `h`
/// that starts at `i`.
pub open spec fn digits_value(h: Seq<char>, i: int, acc: nat) -> nat
    decreases h.len() - i,
{
    if 0 <= i < h.len() && is_digit(h[i]) {
        digits_value(h, i + 1, acc * 10 + (h[i] as nat - '0' as nat) as nat)
    } else {
        acc
    }
}

/// The first working-file line of a hunk, from its header
/// `@@ -a,b +c,d @@`: the number right after the first `+`, when there is
/// one.
pub open spec fn hunk_new_start(h: Seq<char>) -> Option<nat> {
    let k = plus_from(h, 0);
    if k < 0 || k + 1 >= h.len() || !is_digit(h[k + 1]) {
        None
    } else {
        Some(digits_value(h, k + 1, 0))
    }
}

/// The row numbers of the diff lines `s` and the working-file line that the
/// next context or added line shows: numbering starts at 1, each hunk header
/// restarts it at the hunk's first working-file line, context and added
/// lines take a number each, removed lines none.
pub open spec fn numbering(s: Seq<UnifiedDiffLine>) -> (Seq<Option<usize>>, nat)
    decreases s.len(),
{
    if s.len() == 0 {
        (Seq::empty(), 1)
    } else {
        let (r, next) = numbering(s.drop_last());
        match s.last() {
            UnifiedDiffLine::HunkHeader(h) => (r, match hunk_new_start(h@) { Some(n) => n, None => next }),
            UnifiedDiffLine::Removed(_) => (r.push(None), next),
            _ => (r.push(Some(capped(next) as usize)), next + 1),
        }
    }
}

/// For each displayed diff row (hunk headers are not displayed), the
/// 1-indexed working-file line it shows (counted from the start its hunk
/// header gives), or `None` for a removed line.
pub open spec fn line_numbers(s: Seq<UnifiedDiffLine>) -> Seq<Option<usize>> {
    numbering(s).0
}

/// The line numbers grow strictly down the rows that show a file line (so
/// in a diff whose hunks come in order and do not overlap).
pub open spec fn ascending(nums: Seq<Option<usize>>) -> bool {
    forall|i: int, j: int| 0 <= i < j < nums.len() && (#[trigger] nums[i]) is Some && (#[trigger] nums[j]) is Some
        ==> nums[i]->0 < nums[j]->0
}

/// The displayed diff rows: all lines but hunk headers.
pub open spec fn displayed(s: Seq<UnifiedDiffLine>) -> Seq<UnifiedDiffLine> {
    s.filter(|l: UnifiedDiffLine| !(l is HunkHeader))
}

/// The file line at display row `i`, if it shows one.
pub open spec fn file_line_at(nums: Seq<Option<usize>>, i: int) -> Option<usize> {
    if 0 <= i < nums.len() { nums[i] } else { None }
}

/// Which display rows show no file line.
pub open spec fn removed_rows(nums: Seq<Option<usize>>) -> Seq<bool> {
    nums.map_values(|n: Option<usize>| n is None)
}

/// The file line at row `c`, else the nearest one below it, else the
/// nearest one above it.
pub open spec fn nearest_file_line(nums: Seq<Option<usize>>, c: int) -> Option<usize> {
    if file_line_at(nums, c) is Some {
        file_line_at(nums, c)
    } else {
        let h = removed_rows(nums);
        let j = next_unset(h, c);
        if j >= 0 {
            nums[j]
        } else {
            let k = prev_unset(h, c);
            if k >= 0 { nums[k] } else { None }
        }
    }
}

/// The distance between two line numbers.
pub open spec fn line_dist(a: usize, b: usize) -> int {
    if a >= b { a - b } else { b - a }
}

/// `r` is the row for file line `fl`: the first row showing the line
/// nearest to it, or 0 when no row shows a file line.
pub open spec fn closest_row(nums: Seq<Option<usize>>, fl: usize, r: int) -> bool {
    if exists|i: int| 0 <= i < nums.len() && nums[i] is Some {
        &&& 0 <= r < nums.len()
        &&& nums[r] is Some
        &&& forall|j: int| 0 <= j < nums.len() && nums[j] is Some
            ==> line_dist(nums[r]->0, fl) <= line_dist(nums[j]->0, fl)
        &&& forall|j: int| 0 <= j < r && nums[j] is Some
            ==> line_dist(nums[j]->0, fl) > line_dist(nums[r]->0, fl)
    } else {
        r == 0
    }
}

/// Every line number of the mapping is at most [`line_cap`].
pub proof fn lemma_line_numbers_capped(s: Seq<UnifiedDiffLine>)
    ensures
        forall|i: int| 0 <= i < line_numbers(s).len() && (#[trigger] line_numbers(s)[i]) is Some
            ==> line_numbers(s)[i]->0 <= isize::MAX,
    decreases s.len(),
{
    if s.len() > 0 {
        let d = s.drop_last();
        lemma_line_numbers_capped(d);
        let (r, next) = numbering(d);
        assert forall|i: int| 0 <= i < line_numbers(s).len() && (#[trigger] line_numbers(s)[i]) is Some
            implies line_numbers(s)[i]->0 <= isize::MAX by {
            if i < r.len() {
                assert(line_numbers(s)[i] == r[i]);
            }
        }
    }
}

/// When the file lines grow down the rows (the hunks come in order), the
/// row found for a line that a row shows is that very row.
pub proof fn law_row_of_shown_line(nums: Seq<Option<usize>>, i: int, r: int)
    requires
        ascending(nums),
        0 <= i < nums.len(),
        nums[i] is Some,
        closest_row(nums, nums[i]->0, r),
    ensures
        r == i,
{
    let fl = nums[i]->0;
    assert(line_dist(nums[i]->0, fl) == 0);
    if r < i {
        assert(nums[r]->0 < nums[i]->0);
    } else if r > i {
        assert(line_dist(nums[i]->0, fl) > line_dist(nums[r]->0, fl));
    }
}

/// The text of a unified diff line.
pub open spec fn line_text_of(l: UnifiedDiffLine) -> Seq<char> {
    match l {
        UnifiedDiffLine::Context(t) => t@,
        UnifiedDiffLine::Added(t) => t@,
        UnifiedDiffLine::Removed(t) => t@,
        UnifiedDiffLine::HunkHeader(t) => t@,
    }
}

/// The text of displayed diff row `i`, if there is such a row.
pub open spec fn display_row_text(s: Seq<UnifiedDiffLine>, i: int) -> Option<Seq<char>> {
    if 0 <= i < displayed(s).len() { Some(line_text_of(displayed(s)[i])) } else { None }
}

proof fn lemma_displayed_prefix(s: Seq<UnifiedDiffLine>, j: int)
    requires
        0 <= j <= s.len(),
    ensures
        displayed(s.take(j)).len() <= displayed(s).len(),
        forall|q: int| 0 <= q < displayed(s.take(j)).len() ==> displayed(s)[q] == #[trigger] displayed(s.take(j))[q],
    decreases s.len() - j,
{
    if j < s.len() {
        lemma_displayed_prefix(s, j + 1);
        let t = s.take(j + 1);
        assert(t.drop_last() =~= s.take(j));
        reveal(Seq::filter);
        assert(displayed(t) == if !(t.last() is HunkHeader) { displayed(s.take(j)).push(t.last()) } else { displayed(s.take(j)) });
        assert forall|q: int| 0 <= q < displayed(s.take(j)).len() implies displayed(s)[q] == #[trigger] displayed(s.take(j))[q] by {
            assert(displayed(t)[q] == displayed(s.take(j))[q]);
        }
    } else {
        assert(s.take(j) =~= s);
    }
}

/// Diff-related state of the viewed file.
pub struct DiffState {
    /// Per-line diff info for gutter markers in normal mode.
    pub line_diff: Option<LineDiff>,
    /// Parsed unified diff for diff mode.
    pub unified_diff: Option<UnifiedDiff>,
    /// Whether the viewer is currently in diff mode.
    pub diff_mode: bool,
    /// Mapping from diff display index to file line number (1-indexed).
    /// `None` for Removed lines (not in current file), `Some(n)` for Context/Added.
    pub diff_line_numbers: Vec<Option<usize>>,
}

/// A value of digits never falls below what came before them.
proof fn lemma_digits_value_grows(h: Seq<char>, i: int, acc: nat)
    ensures
        digits_value(h, i, acc) >= acc,
    decreases h.len() - i,
{
    if 0 <= i < h.len() && is_digit(h[i]) {
        let d = (h[i] as nat - '0' as nat) as nat;
        assert(acc * 10 + d >= acc) by (nonlinear_arith);
        lemma_digits_value_grows(h, i + 1, acc * 10 + d);
    }
}

/// Capping what came before the digits does not change the capped value.
proof fn lemma_capped_digits(h: Seq<char>, i: int, x: nat)
    ensures
        capped(digits_value(h, i, x)) == capped(digits_value(h, i, capped(x))),
{
    lemma_digits_value_grows(h, i, x);
    lemma_digits_value_grows(h, i, capped(x));
}

/// The first working-file line of the hunk with header `header` (see
/// [`hunk_new_start`]), kept at most [`line_cap`]; `None` when the header
/// gives none.
pub fn parse_hunk_new_start(header: &str) -> (r: Option<usize>)
    ensures
        match hunk_new_start(header@) {
            Some(n) => r == Some(capped(n) as usize),
            None => r is None,
        },
{
    let cs = chars_of(header);
    let m: usize = isize::MAX as usize;
    let mut k: usize = 0;
    while k < cs.len() && cs[k] != '+'
        invariant
            k <= cs@.len(),
            cs@ == header@,
            plus_from(cs@, 0) == plus_from(cs@, k as int),
        decreases cs.len() - k,
    {
        k = k + 1;
    }
    if k >= cs.len() || k + 1 >= cs.len() {
        return None;
    }
    if !('0' <= cs[k + 1] && cs[k + 1] <= '9') {
        return None;
    }
    let mut i: usize = k + 1;
    let mut acc: usize = 0;
    proof {
        assert(capped(0) == 0);
    }
    while i < cs.len() && '0' <= cs[i] && cs[i] <= '9'
        invariant
            k + 1 <= i <= cs@.len(),
            cs@ == header@,
            plus_from(cs@, 0) == k,
            m == isize::MAX,
            acc <= m,
            capped(digits_value(cs@, i as int, acc as nat)) == capped(digits_value(cs@, k as int + 1, 0)),
        decreases cs.len() - i,
    {
        let c = cs[i];
        let d: usize = (c as u32 - '0' as u32) as usize;
        assert(d as nat == (c as nat - '0' as nat) as nat);
        assert(d <= 9);
        let nxt: usize = if acc > (m - d) / 10 { m } else { acc * 10 + d };
        proof {
            if acc > (m - d) / 10 {
                assert(acc * 10 + d > m) by (nonlinear_arith)
                    requires acc > (m - d) / 10, d <= 9, m >= 9;
            } else {
                assert(acc * 10 + d <= m) by (nonlinear_arith)
                    requires acc <= (m - d) / 10, d <= 9, m >= 9;
            }
            assert(nxt as nat == capped((acc * 10 + d) as nat));
            lemma_capped_digits(cs@, i as int + 1, (acc * 10 + d) as nat);
        }
        acc = nxt;
        i = i + 1;
    }
    Some(acc)
}

impl DiffState {
    pub fn new() -> (r: Self)
        ensures
            r.line_diff is None,
            r.unified_diff is None,
            !r.diff_mode,
            r.diff_line_numbers@.len() == 0,
    {
        DiffState { line_diff: None, unified_diff: None, diff_mode: false, diff_line_numbers: Vec::new() }
    }

    /// Forget the diff data and leave diff mode.
    pub fn clear(&mut self)
        ensures
            final(self).line_diff is None,
            final(self).unified_diff is None,
            !final(self).diff_mode,
            final(self).diff_line_numbers@.len() == 0,
    {
        self.line_diff = None;
        self.unified_diff = None;
        self.diff_mode = false;
        self.diff_line_numbers = Vec::new();
    }

    /// Set the diff data for the loaded file and rebuild the row mapping.
    pub fn set(&mut self, line_diff: Option<LineDiff>, unified_diff: Option<UnifiedDiff>)
        ensures
            final(self).line_diff == line_diff,
            final(self).unified_diff == unified_diff,
            final(self).diff_mode == old(self).diff_mode,
            final(self).diff_line_numbers@ == match unified_diff {
                Some(d) => line_numbers(d.lines@),
                None => Seq::<Option<usize>>::empty(),
            },
    {
        self.line_diff = line_diff;
        self.unified_diff = unified_diff;
        self.compute_line_numbers();
    }

    /// Rebuild the mapping from display rows to file lines.
    pub fn compute_line_numbers(&mut self)
        ensures
            final(self).line_diff == old(self).line_diff,
            final(self).unified_diff == old(self).unified_diff,
            final(self).diff_mode == old(self).diff_mode,
            final(self).diff_line_numbers@ == match old(self).unified_diff {
                Some(d) => line_numbers(d.lines@),
                None => Seq::<Option<usize>>::empty(),
            },
    {
        let mut nums: Vec<Option<usize>> = Vec::new();
        match &self.unified_diff {
            None => {},
            Some(diff) => {
                let ghost s = diff.lines@;
                let m: usize = isize::MAX as usize;
                let mut next: usize = 1;
                let mut i: usize = 0;
                assert(s.take(0) =~= Seq::<UnifiedDiffLine>::empty());
                while i < diff.lines.len()
                    invariant
                        i <= s.len(),
                        s == diff.lines@,
                        m == isize::MAX,
                        next as nat == capped(numbering(s.take(i as int)).1),
                        nums@ == line_numbers(s.take(i as int)),
                    decreases s.len() - i,
                {
                    proof {
                        let t = s.take(i as int + 1);
                        assert(t.drop_last() =~= s.take(i as int));
                        assert(t.last() == s[i as int]);
                    }
                    match &diff.lines[i] {
                        UnifiedDiffLine::HunkHeader(h) => {
                            match parse_hunk_new_start(h.as_str()) {
                                Some(n) => {
                                    next = n;
                                },
                                None => {},
                            }
                        },
                        UnifiedDiffLine::Removed(_) => {
                            nums.push(None);
                        },
                        _ => {
                            nums.push(Some(next));
                            next = if next < m { next + 1 } else { m };
                        },
                    }
                    i = i + 1;
                }
                proof {
                    assert(s.take(s.len() as int) =~= s);
                }
            },
        }
        self.diff_line_numbers = nums;
    }

    /// The file line (1-indexed) at display row `display_idx`; `None` for a
    /// removed line or a row past the end.
    pub fn file_line_at_display(&self, display_idx: usize) -> (r: Option<usize>)
        ensures
            r == file_line_at(self.diff_line_numbers@, display_idx as int),
    {
        if display_idx < self.diff_line_numbers.len() {
            self.diff_line_numbers[display_idx]
        } else {
            None
        }
    }

    /// The file line at the cursor row, falling back to the nearest file line
    /// when the cursor sits on a removed line: downward first, then up.
    pub fn resolve_nearest_file_line(&self, cursor_line: usize) -> (r: Option<usize>)
        ensures
            r == nearest_file_line(self.diff_line_numbers@, cursor_line as int),
    {
        if let Some(fl) = self.file_line_at_display(cursor_line) {
            return Some(fl);
        }
        let mut flags: Vec<bool> = Vec::new();
        let mut i: usize = 0;
        while i < self.diff_line_numbers.len()
            invariant
                i <= self.diff_line_numbers@.len(),
                flags@ == removed_rows(self.diff_line_numbers@).take(i as int),
            decreases self.diff_line_numbers.len() - i,
        {
            flags.push(self.diff_line_numbers[i].is_none());
            i = i + 1;
            assert(flags@ =~= removed_rows(self.diff_line_numbers@).take(i as int));
        }
        assert(flags@ =~= removed_rows(self.diff_line_numbers@));
        match next_unset_index(&flags, cursor_line) {
            Some(j) => {
                proof {
                    let h = removed_rows(self.diff_line_numbers@);
                    assert(!h[j as int]);
                }
                return self.diff_line_numbers[j];
            },
            None => {},
        }
        match prev_unset_index(&flags, cursor_line) {
            Some(k) => {
                proof {
                    let h = removed_rows(self.diff_line_numbers@);
                    assert(!h[k as int]);
                }
                self.diff_line_numbers[k]
            },
            None => None,
        }
    }

    /// The display row for 1-indexed file line `file_line`: the first row
    /// showing the line nearest to it (that line itself when it is shown),
    /// or 0 when no row shows a file line.
    pub fn display_index_for_file_line(&self, file_line: usize) -> (r: usize)
        requires
            file_line <= isize::MAX,
            forall|i: int| 0 <= i < self.diff_line_numbers@.len() && self.diff_line_numbers@[i] is Some
                ==> self.diff_line_numbers@[i]->0 <= isize::MAX,
        ensures
            closest_row(self.diff_line_numbers@, file_line, r as int),
    {
        let ghost nums = self.diff_line_numbers@;
        let mut best_idx: usize = 0;
        let mut best_dist: usize = usize::MAX;
        let mut found = false;
        let mut i: usize = 0;
        while i < self.diff_line_numbers.len()
            invariant
                i <= nums.len(),
                nums == self.diff_line_numbers@,
                file_line <= isize::MAX,
                forall|k: int| 0 <= k < nums.len() && nums[k] is Some ==> nums[k]->0 <= isize::MAX,
                found ==> best_idx < i && nums[best_idx as int] is Some
                    && best_dist == line_dist(nums[best_idx as int]->0, file_line)
                    && (forall|j: int| 0 <= j < i && nums[j] is Some ==> best_dist <= line_dist(nums[j]->0, file_line))
                    && (forall|j: int| 0 <= j < best_idx && nums[j] is Some ==> line_dist(nums[j]->0, file_line) > best_dist),
                !found ==> best_idx == 0 && best_dist == usize::MAX && forall|j: int| 0 <= j < i ==> nums[j] is None,
            decreases nums.len() - i,
        {
            if let Some(fl) = self.diff_line_numbers[i] {
                let d = if fl >= file_line { fl - file_line } else { file_line - fl };
                if d < best_dist {
                    best_dist = d;
                    best_idx = i;
                    found = true;
                }
            }
            i = i + 1;
        }
        best_idx
    }

    /// The number of displayed diff rows (hunk headers excluded), 0 without
    /// a diff.
    pub fn total_lines(&self) -> (r: usize)
        ensures
            r == match self.unified_diff {
                Some(d) => displayed(d.lines@).len(),
                None => 0,
            },
    {
        match &self.unified_diff {
            None => 0,
            Some(d) => {
                let ghost s = d.lines@;
                let mut n: usize = 0;
                let mut i: usize = 0;
                while i < d.lines.len()
                    invariant
                        i <= s.len(),
                        s == d.lines@,
                        n == displayed(s.take(i as int)).len(),
                        n <= i,
                    decreases s.len() - i,
                {
                    proof {
                        let t = s.take(i as int + 1);
                        assert(t.drop_last() =~= s.take(i as int));
                        reveal(Seq::filter);
                        assert(t.last() == s[i as int]);
                    }
                    match &d.lines[i] {
                        UnifiedDiffLine::HunkHeader(_) => {},
                        _ => {
                            n = n + 1;
                        },
                    }
                    i = i + 1;
                }
                proof {
                    assert(s.take(s.len() as int) =~= s);
                }
                n
            },
        }
    }
    /// The text of displayed diff row `display_idx`, if there is one.
    pub fn line_text_at_display(&self, display_idx: usize) -> (r: Option<&str>)
        ensures
            match self.unified_diff {
                Some(d) => match r {
                    Some(t) => display_row_text(d.lines@, display_idx as int) == Some(t@),
                    None => display_row_text(d.lines@, display_idx as int) is None,
                },
                None => r is None,
            },
    {
        match &self.unified_diff {
            None => None,
            Some(d) => {
                let ghost s = d.lines@;
                let mut k: usize = 0;
                let mut i: usize = 0;
                while i < d.lines.len()
                    invariant
                        i <= s.len(),
                        s == d.lines@,
                        self.unified_diff is Some,
                        s == self.unified_diff->0.lines@,
                        k == displayed(s.take(i as int)).len(),
                        k <= i,
                        k <= display_idx,
                    decreases s.len() - i,
                {
                    let ghost t = s.take(i as int + 1);
                    proof {
                        assert(t.drop_last() =~= s.take(i as int));
                        reveal(Seq::filter);
                        assert(t.last() == s[i as int]);
                    }
                    match &d.lines[i] {
                        UnifiedDiffLine::HunkHeader(_) => {},
                        UnifiedDiffLine::Context(x) | UnifiedDiffLine::Added(x) | UnifiedDiffLine::Removed(x) => {
                            if k == display_idx {
                                proof {
                                    assert(displayed(t) == displayed(s.take(i as int)).push(s[i as int]));
                                    lemma_displayed_prefix(s, i as int + 1);
                                    assert(displayed(s)[k as int] == displayed(t)[k as int]);
                                    assert(displayed(t)[k as int] == s[i as int]);
                                    assert(line_text_of(s[i as int]) == x@);
                                    assert(k < displayed(s).len());
                                }
                                let r = x.as_str();
                                assert(r@ == x@);
                                return Some(r);
                            }
                            k = k + 1;
                        },
                    }
                    i = i + 1;
                }
                proof {
                    assert(s.take(s.len() as int) =~= s);
                }
                None
            },
        }
    }
}

/// There are no more displayed rows than diff lines.
pub proof fn lemma_displayed_len(s: Seq<UnifiedDiffLine>)
    ensures
        displayed(s).len() <= s.len(),
{
    s.lemma_filter_len(|l: UnifiedDiffLine| !(l is HunkHeader));
}

/// There is one line number per displayed row.
pub proof fn lemma_line_numbers_len(s: Seq<UnifiedDiffLine>)
    ensures
        line_numbers(s).len() == displayed(s).len(),
    decreases s.len(),
{
    if s.len() > 0 {
        let d = s.drop_last();
        lemma_line_numbers_len(d);
        assert(s =~= d.push(s.last()));
        let (r, next) = numbering(d);
        d.lemma_filter_push(s.last(), |l: UnifiedDiffLine| !(l is HunkHeader));
    } else {
        assert(displayed(s) =~= Seq::<UnifiedDiffLine>::empty()) by {
            reveal(Seq::filter);
        }
    }
}

} // verus!
