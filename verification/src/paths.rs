//! Paths are held as `/`-separated strings. Their order is the one `Path`
//! uses: component by component, which for normalized paths (no empty, `.`
//! or trailing components) is the character order with `/` below every
//! other character.
use vstd::prelude::*;
use crate::text::{chars_of, string_from_chars, to_owned_string};

verus! {

/// Sort key of a path character: `/` sorts before everything else.
pub open spec fn path_key(c: char) -> int {
    if c == '/' { 0 } else { c as int + 1 }
}

/// Strict order on paths.
pub open spec fn path_lt(a: Seq<char>, b: Seq<char>) -> bool
    decreases a.len(),
{
    if a.len() == 0 {
        b.len() > 0
    } else if b.len() == 0 {
        false
    } else if path_key(a[0]) != path_key(b[0]) {
        path_key(a[0]) < path_key(b[0])
    } else {
        path_lt(a.drop_first(), b.drop_first())
    }
}

pub proof fn lemma_path_key_injective(a: char, b: char)
    ensures
        path_key(a) == path_key(b) ==> a == b,
{
    if path_key(a) == path_key(b) {
        if a == '/' || b == '/' {
            assert((a as int) >= 0 && (b as int) >= 0);
        } else {
            vstd::utf8::char_u32_cast(a, a as u32);
            vstd::utf8::char_u32_cast(b, b as u32);
        }
    }
}

pub proof fn lemma_path_lt_irreflexive(a: Seq<char>)
    ensures
        !path_lt(a, a),
    decreases a.len(),
{
    if a.len() > 0 {
        lemma_path_lt_irreflexive(a.drop_first());
    }
}

pub proof fn lemma_path_lt_transitive(a: Seq<char>, b: Seq<char>, c: Seq<char>)
    requires
        path_lt(a, b),
        path_lt(b, c),
    ensures
        path_lt(a, c),
    decreases a.len(),
{
    if a.len() > 0 && b.len() > 0 && c.len() > 0 {
        if path_key(a[0]) == path_key(b[0]) && path_key(b[0]) == path_key(c[0]) {
            lemma_path_lt_transitive(a.drop_first(), b.drop_first(), c.drop_first());
        }
    }
}

pub proof fn lemma_path_lt_total(a: Seq<char>, b: Seq<char>)
    ensures
        path_lt(a, b) || path_lt(b, a) || a == b,
    decreases a.len(),
{
    if a.len() > 0 && b.len() > 0 {
        if path_key(a[0]) == path_key(b[0]) {
            lemma_path_key_injective(a[0], b[0]);
            lemma_path_lt_total(a.drop_first(), b.drop_first());
            if a.drop_first() == b.drop_first() {
                assert(a =~= seq![a[0]] + a.drop_first());
                assert(b =~= seq![b[0]] + b.drop_first());
            }
        }
    } else if a.len() == 0 && b.len() == 0 {
        assert(a =~= b);
    }
}

pub proof fn lemma_path_lt_asymmetric(a: Seq<char>, b: Seq<char>)
    requires
        path_lt(a, b),
    ensures
        !path_lt(b, a),
{
    if path_lt(b, a) {
        lemma_path_lt_transitive(a, b, a);
        lemma_path_lt_irreflexive(a);
    }
}

fn char_path_key(c: char) -> (k: u64)
    ensures
        k == path_key(c),
{
    if c == '/' { 0 } else { c as u64 + 1 }
}

/// Compares two character sequences in path order.
pub fn chars_path_lt(a: &Vec<char>, b: &Vec<char>) -> (r: bool)
    ensures
        r == path_lt(a@, b@),
{
    let mut i: usize = 0;
    assert(a@.skip(0) =~= a@);
    assert(b@.skip(0) =~= b@);
    while i < a.len() && i < b.len()
        invariant
            i <= a@.len(),
            i <= b@.len(),
            path_lt(a@, b@) == path_lt(a@.skip(i as int), b@.skip(i as int)),
        decreases a.len() - i,
    {
        let ka = char_path_key(a[i]);
        let kb = char_path_key(b[i]);
        proof {
            assert(a@.skip(i as int)[0] == a@[i as int]);
            assert(b@.skip(i as int)[0] == b@[i as int]);
            assert(a@.skip(i as int).drop_first() =~= a@.skip(i + 1));
            assert(b@.skip(i as int).drop_first() =~= b@.skip(i + 1));
        }
        if ka != kb {
            return ka < kb;
        }
        i = i + 1;
    }
    proof {
        assert(a@.skip(i as int).len() == a@.len() - i);
        assert(b@.skip(i as int).len() == b@.len() - i);
    }
    i == a.len() && i < b.len()
}

/// Compares two paths in path order.
pub fn path_less(a: &str, b: &str) -> (r: bool)
    ensures
        r == path_lt(a@, b@),
{
    let x = chars_of(a);
    let y = chars_of(b);
    chars_path_lt(&x, &y)
}

/// `s` is strictly increasing in path order.
pub open spec fn strictly_sorted_paths(s: Seq<Seq<char>>) -> bool {
    forall|i: int, j: int| 0 <= i < j < s.len() ==> path_lt(s[i], s[j])
}

/// Two strictly sorted path lists with the same elements are equal.
pub proof fn lemma_sorted_paths_unique(a: Seq<Seq<char>>, b: Seq<Seq<char>>)
    requires
        strictly_sorted_paths(a),
        strictly_sorted_paths(b),
        forall|x: Seq<char>| a.contains(x) <==> b.contains(x),
    ensures
        a == b,
    decreases a.len(),
{
    if a.len() == 0 {
        if b.len() > 0 {
            assert(b.contains(b[0]));
        }
        assert(a =~= b);
    } else if b.len() == 0 {
        assert(a.contains(a[0]));
    } else {
        // the first elements are both the least element
        assert(a.contains(a[0]));
        assert(b.contains(b[0]));
        let ia = choose|i: int| 0 <= i < b.len() && b[i] == a[0];
        let ib = choose|i: int| 0 <= i < a.len() && a[i] == b[0];
        if ia > 0 {
            assert(path_lt(b[0], b[ia]));
            if ib > 0 {
                assert(path_lt(a[0], a[ib]));
                lemma_path_lt_asymmetric(a[0], b[0]);
            } else {
                lemma_path_lt_irreflexive(a[0]);
            }
        }
        assert(a[0] == b[0]);
        let a1 = a.drop_first();
        let b1 = b.drop_first();
        assert forall|x: Seq<char>| a1.contains(x) <==> b1.contains(x) by {
            if a1.contains(x) {
                let k = choose|k: int| 0 <= k < a1.len() && a1[k] == x;
                assert(a[k + 1] == x);
                assert(path_lt(a[0], x));
                assert(b.contains(x));
                let m = choose|m: int| 0 <= m < b.len() && b[m] == x;
                if m == 0 {
                    lemma_path_lt_irreflexive(x);
                }
                assert(b1[m - 1] == x);
            }
            if b1.contains(x) {
                let k = choose|k: int| 0 <= k < b1.len() && b1[k] == x;
                assert(b[k + 1] == x);
                assert(path_lt(b[0], x));
                assert(a.contains(x));
                let m = choose|m: int| 0 <= m < a.len() && a[m] == x;
                if m == 0 {
                    lemma_path_lt_irreflexive(x);
                }
                assert(a1[m - 1] == x);
            }
        }
        lemma_sorted_paths_unique(a1, b1);
        assert(a =~= seq![a[0]] + a1);
        assert(b =~= seq![b[0]] + b1);
    }
}

/// `p` relative to `root`, as `Path::strip_prefix` gives it for normalized
/// paths: `None` when `root` is not a leading run of whole components of `p`.
pub open spec fn strip_root(p: Seq<char>, root: Seq<char>) -> Option<Seq<char>> {
    if root.len() == 0 {
        Some(p)
    } else if p == root {
        Some(Seq::empty())
    } else if root.len() <= p.len() && p.take(root.len() as int) == root && root.last() == '/' {
        Some(p.skip(root.len() as int))
    } else if root.len() < p.len() && p.take(root.len() as int) == root && p[root.len() as int] == '/' {
        Some(p.skip(root.len() as int + 1))
    } else {
        None
    }
}

/// The path shown for `p` below `root`: relative when `root` is one of its
/// ancestors, the full path otherwise.
pub open spec fn display_below(p: Seq<char>, root: Seq<char>) -> Seq<char> {
    match strip_root(p, root) {
        Some(r) => r,
        None => p,
    }
}

fn skip_chars(v: &Vec<char>, k: usize) -> (s: String)
    requires
        k <= v@.len(),
    ensures
        s@ == v@.skip(k as int),
{
    let mut out: Vec<char> = Vec::new();
    let mut i = k;
    while i < v.len()
        invariant
            k <= i <= v@.len(),
            out@ == v@.subrange(k as int, i as int),
        decreases v.len() - i,
    {
        out.push(v[i]);
        i = i + 1;
        assert(out@ =~= v@.subrange(k as int, i as int));
    }
    string_from_chars(&out)
}

/// Whether `root` is a prefix of `p` (character-wise).
fn has_prefix(p: &Vec<char>, root: &Vec<char>) -> (r: bool)
    ensures
        r == (root@.len() <= p@.len() && p@.take(root@.len() as int) == root@),
{
    if root.len() > p.len() {
        return false;
    }
    let mut i: usize = 0;
    while i < root.len()
        invariant
            root@.len() <= p@.len(),
            i <= root@.len(),
            forall|j: int| 0 <= j < i ==> p@[j] == root@[j],
        decreases root.len() - i,
    {
        if p[i] != root[i] {
            assert(p@.take(root@.len() as int)[i as int] != root@[i as int]);
            return false;
        }
        i = i + 1;
    }
    assert(p@.take(root@.len() as int) =~= root@);
    true
}

/// The path `p` shown relative to `root` (see [`display_below`]).
pub fn display_path(p: &str, root: &str) -> (s: String)
    ensures
        s@ == display_below(p@, root@),
{
    let pv = chars_of(p);
    let rv = chars_of(root);
    if rv.len() == 0 {
        return to_owned_string(p);
    }
    if crate::text::str_eq(p, root) {
        let e = String::new();
        assert(e@ =~= Seq::<char>::empty());
        return e;
    }
    if has_prefix(&pv, &rv) {
        if rv[rv.len() - 1] == '/' {
            return skip_chars(&pv, rv.len());
        }
        if rv.len() < pv.len() && pv[rv.len()] == '/' {
            return skip_chars(&pv, rv.len() + 1);
        }
    }
    to_owned_string(p)
}

/// Index of the last `/` of `p`, or -1 when it has none.
pub open spec fn last_slash_index(p: Seq<char>) -> int
    decreases p.len(),
{
    if p.len() == 0 {
        -1
    } else if p.last() == '/' {
        p.len() - 1
    } else {
        last_slash_index(p.drop_last())
    }
}

pub proof fn lemma_last_slash_index(p: Seq<char>)
    ensures
        -1 <= last_slash_index(p) < p.len(),
        last_slash_index(p) >= 0 ==> p[last_slash_index(p)] == '/',
        forall|j: int| last_slash_index(p) < j < p.len() ==> p[j] != '/',
    decreases p.len(),
{
    if p.len() > 0 && p.last() != '/' {
        lemma_last_slash_index(p.drop_last());
        assert forall|j: int| last_slash_index(p) < j < p.len() implies p[j] != '/' by {
            if j < p.len() - 1 {
                assert(p.drop_last()[j] == p[j]);
            }
        }
    }
}

/// The parent of a path as `Path::parent` gives it for normalized paths: the
/// part before the last `/` (`"/"` itself for a child of the root directory,
/// the empty path for a single relative component); `None` for the empty path
/// and for `"/"`.
pub open spec fn parent_of(p: Seq<char>) -> Option<Seq<char>> {
    let i = last_slash_index(p);
    if p.len() == 0 || p == seq!['/'] {
        None
    } else if i < 0 {
        Some(Seq::empty())
    } else if i == 0 {
        Some(seq!['/'])
    } else {
        Some(p.take(i))
    }
}

/// The last component of a path (the whole path when it has no `/`).
pub open spec fn file_name_of(p: Seq<char>) -> Seq<char> {
    p.skip(last_slash_index(p) + 1)
}

/// Index of the last `/` in `v`, if any.
fn last_slash(v: &Vec<char>) -> (r: Option<usize>)
    ensures
        match r {
            Some(i) => i == last_slash_index(v@),
            None => last_slash_index(v@) == -1,
        },
{
    proof {
        lemma_last_slash_index(v@);
    }
    let mut i = v.len();
    while i > 0
        invariant
            i <= v@.len(),
            forall|j: int| i <= j < v@.len() ==> v@[j] != '/',
        decreases i,
    {
        if v[i - 1] == '/' {
            proof {
                lemma_last_slash_index(v@);
                let k = last_slash_index(v@);
                if k < i - 1 {
                    assert(v@[i - 1] != '/');
                } else if k > i - 1 {
                    assert(v@[k] == '/');
                }
            }
            return Some(i - 1);
        }
        i = i - 1;
    }
    proof {
        lemma_last_slash_index(v@);
        let k = last_slash_index(v@);
        if k >= 0 {
            assert(v@[k] == '/');
        }
    }
    None
}

/// The parent directory of a path (see [`parent_of`]).
pub fn parent_path(p: &str) -> (r: Option<String>)
    ensures
        match r {
            Some(q) => parent_of(p@) == Some(q@),
            None => parent_of(p@) is None,
        },
{
    let v = chars_of(p);
    if v.len() == 0 || (v.len() == 1 && v[0] == '/') {
        proof {
            if v@.len() == 1 { assert(p@ =~= seq!['/']); }
        }
        return None;
    }
    proof {
        if p@ == seq!['/'] { assert(v@.len() == 1); }
    }
    match last_slash(&v) {
        Some(i) => {
            if i == 0 {
                let mut s = String::new();
                crate::text::push_char(&mut s, '/');
                assert(s@ =~= seq!['/']);
                Some(s)
            } else {
                proof {
                    lemma_last_slash_index(v@);
                }
                let mut t: Vec<char> = Vec::new();
                let mut j: usize = 0;
                while j < i
                    invariant
                        j <= i < v@.len(),
                        t@ == v@.take(j as int),
                    decreases i - j,
                {
                    t.push(v[j]);
                    j = j + 1;
                    assert(t@ =~= v@.take(j as int));
                }
                Some(string_from_chars(&t))
            }
        },
        None => {
            let e = String::new();
            assert(e@ =~= Seq::<char>::empty());
            Some(e)
        },
    }
}

/// The last component of a path (see [`file_name_of`]).
pub fn file_name(p: &str) -> (r: String)
    ensures
        r@ == file_name_of(p@),
{
    let v = chars_of(p);
    let n = v.len();
    proof {
        lemma_last_slash_index(v@);
    }
    match last_slash(&v) {
        Some(i) => skip_chars(&v, i + 1),
        None => {
            assert(p@.skip(0) =~= p@);
            to_owned_string(p)
        },
    }
}

/// Whether `root` is a leading run of whole components of `p` (see [`strip_root`]).
pub fn is_below(p: &str, root: &str) -> (r: bool)
    ensures
        r == strip_root(p@, root@) is Some,
{
    let pv = chars_of(p);
    let rv = chars_of(root);
    if rv.len() == 0 {
        return true;
    }
    if crate::text::str_eq(p, root) {
        return true;
    }
    if has_prefix(&pv, &rv) {
        if rv[rv.len() - 1] == '/' {
            return true;
        }
        if rv.len() < pv.len() && pv[rv.len()] == '/' {
            return true;
        }
    }
    false
}

} // verus!
