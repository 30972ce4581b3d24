//! What the viewer shows for a file, and how a file's bytes are classified.
use vstd::prelude::*;
use vstd::string::StrSliceExecFns;
use crate::text::{push_char, push_str, to_owned_string};
use crate::comments::lines_view;

verus! {

/// Number of bytes to check for null bytes when detecting binary files.
pub const BINARY_CHECK_BYTES: usize = 512;

/// Content to display in the file viewer.
#[derive(Debug, Clone, PartialEq)]
pub enum ViewerContent {
    /// No file selected yet.
    Placeholder,
    /// File loaded successfully.
    File {
        path: String,
        lines: Vec<String>,
        /// Name of the detected syntax (e.g., "Rust", "Python", "Plain Text").
        syntax_name: String,
    },
    /// Binary file detected.
    Binary(String),
    /// Empty file.
    Empty(String),
    /// Error reading file.
    Error(String),
}

/// Data is binary when a null byte occurs among its first
/// `BINARY_CHECK_BYTES` bytes.
pub open spec fn binary_data(bytes: Seq<u8>) -> bool {
    exists|i: int| 0 <= i < bytes.len() && i < BINARY_CHECK_BYTES && bytes[i] == 0
}

/// Check if data is binary by looking for null bytes in the first bytes.
pub fn is_binary(bytes: &[u8]) -> (r: bool)
    ensures
        r == binary_data(bytes@),
{
    let check_len = if bytes.len() < BINARY_CHECK_BYTES { bytes.len() } else { BINARY_CHECK_BYTES };
    let mut i: usize = 0;
    while i < check_len
        invariant
            i <= check_len,
            check_len <= bytes@.len(),
            check_len <= BINARY_CHECK_BYTES,
            check_len == bytes@.len() || check_len == BINARY_CHECK_BYTES,
            forall|j: int| 0 <= j < i ==> bytes@[j] != 0,
        decreases check_len - i,
    {
        if bytes[i] == 0 {
            return true;
        }
        i = i + 1;
    }
    false
}

/// The index of the first newline of `s`, or -1.
pub open spec fn first_newline(s: Seq<char>) -> int
    decreases s.len(),
{
    if s.len() == 0 {
        -1
    } else if s[0] == '\n' {
        0
    } else {
        let k = first_newline(s.skip(1));
        if k < 0 { -1 } else { k + 1 }
    }
}

/// The first newline of a text: -1 when it has none, else a newline with
/// none before it.
pub proof fn lemma_first_newline(s: Seq<char>)
    ensures
        -1 <= first_newline(s) < s.len(),
        first_newline(s) >= 0 ==> s[first_newline(s)] == '\n',
        forall|j: int| 0 <= j < s.len() && (first_newline(s) < 0 || j < first_newline(s)) ==> s[j] != '\n',
    decreases s.len(),
{
    if s.len() > 0 && s[0] != '\n' {
        lemma_first_newline(s.skip(1));
        assert forall|j: int| 0 <= j < s.len() && (first_newline(s) < 0 || j < first_newline(s)) implies s[j] != '\n' by {
            if j > 0 {
                assert(s.skip(1)[j - 1] == s[j]);
            }
        }
    }
}

proof fn lemma_first_newline_at(s: Seq<char>, k: int)
    requires
        0 <= k < s.len(),
        s[k] == '\n',
        forall|j: int| 0 <= j < k ==> s[j] != '\n',
    ensures
        first_newline(s) == k,
    decreases k,
{
    if k > 0 {
        assert forall|j: int| 0 <= j < k - 1 implies s.skip(1)[j] != '\n' by {
            assert(s.skip(1)[j] == s[j + 1]);
        }
        lemma_first_newline_at(s.skip(1), k - 1);
    }
}

proof fn lemma_no_newline(s: Seq<char>)
    requires
        forall|j: int| 0 <= j < s.len() ==> s[j] != '\n',
    ensures
        first_newline(s) == -1,
    decreases s.len(),
{
    if s.len() > 0 {
        assert forall|j: int| 0 <= j < s.len() - 1 implies s.skip(1)[j] != '\n' by {
            assert(s.skip(1)[j] == s[j + 1]);
        }
        lemma_no_newline(s.skip(1));
    }
}

/// A line without the carriage return that ended it.
pub open spec fn strip_cr(l: Seq<char>) -> Seq<char> {
    if l.len() > 0 && l.last() == '\r' { l.drop_last() } else { l }
}

/// The lines of a text as `str::lines` splits it: at each newline (a
/// carriage return right before it dropped), with no empty last line after a
/// final newline.
pub open spec fn text_lines(s: Seq<char>) -> Seq<Seq<char>>
    decreases s.len(),
{
    if s.len() == 0 {
        Seq::empty()
    } else {
        let k = first_newline(s);
        if k < 0 {
            seq![s]
        } else {
            proof {
                lemma_first_newline(s);
            }
            seq![strip_cr(s.take(k))] + text_lines(s.skip(k + 1))
        }
    }
}

/// Split a text into lines (see [`text_lines`]).
pub fn split_lines(s: &str) -> (r: Vec<String>)
    ensures
        lines_view(r@) == text_lines(s@),
{
    let cs = crate::text::chars_of(s);
    let mut out: Vec<String> = Vec::new();
    let mut cur = String::new();
    let mut i: usize = 0;
    proof {
        assert(cur@ =~= Seq::<char>::empty());
        assert(cur@ + cs@.skip(0) =~= s@);
    }
    while i < cs.len()
        invariant
            i <= cs@.len(),
            cs@ == s@,
            forall|j: int| 0 <= j < cur@.len() ==> cur@[j] != '\n',
            text_lines(s@) == lines_view(out@) + text_lines(cur@ + cs@.skip(i as int)),
        decreases cs.len() - i,
    {
        let c = cs[i];
        let ghost rest = cs@.skip(i as int + 1);
        proof {
            assert(cs@.skip(i as int) =~= seq![c] + rest);
        }
        if c == '\n' {
            proof {
                let t = cur@ + seq![c] + rest;
                assert(cur@ + cs@.skip(i as int) =~= t);
                assert forall|j: int| 0 <= j < cur@.len() implies t[j] != '\n' by {
                    assert(t[j] == cur@[j]);
                }
                lemma_first_newline_at(t, cur@.len() as int);
                assert(t.take(cur@.len() as int) =~= cur@);
                assert(t.skip(cur@.len() as int + 1) =~= rest);
            }
            let line = if cur.as_str().unicode_len() > 0 && cur.as_str().get_char(cur.as_str().unicode_len() - 1) == '\r' {
                let n = cur.as_str().unicode_len() - 1;
                let l = to_owned_string(cur.as_str().substring_char(0, n));
                proof {
                    assert(l@ =~= cur@.drop_last());
                }
                l
            } else {
                cur.clone()
            };
            let ghost before = lines_view(out@);
            out.push(line);
            cur = String::new();
            proof {
                assert(lines_view(out@) =~= before.push(strip_cr(cur@ + seq![c] + rest).take(0) + line@));
                assert(cur@ =~= Seq::<char>::empty());
                assert(cur@ + rest =~= rest);
                assert(lines_view(out@) =~= before + seq![line@]);
            }
        } else {
            let ghost old_cur = cur@;
            push_char(&mut cur, c);
            proof {
                assert(cur@ + rest =~= old_cur + cs@.skip(i as int));
                assert forall|j: int| 0 <= j < cur@.len() implies cur@[j] != '\n' by {
                    if j < old_cur.len() {
                        assert(cur@[j] == old_cur[j]);
                    }
                }
            }
        }
        i = i + 1;
    }
    proof {
        assert(cs@.skip(cs@.len() as int) =~= Seq::<char>::empty());
        assert(cur@ + cs@.skip(cs@.len() as int) =~= cur@);
        if cur@.len() > 0 {
            lemma_no_newline(cur@);
        }
    }
    if cur.as_str().unicode_len() > 0 {
        let ghost before = lines_view(out@);
        out.push(cur);
        proof {
            assert(lines_view(out@) =~= before + seq![out@.last()@]);
        }
    } else {
        proof {
            assert(lines_view(out@) =~= lines_view(out@) + Seq::<Seq<char>>::empty());
        }
    }
    out
}

/// Classify a file's bytes for display: binary data, an empty file, or the
/// lines of the text (invalid UTF-8 replaced) with the syntax name the
/// highlighter chose for the file.
pub fn classify_content(path: &str, bytes: &[u8], syntax_name: String) -> (r: ViewerContent)
    ensures
        match r {
            ViewerContent::Binary(p) => binary_data(bytes@) && p@ == path@,
            ViewerContent::Empty(p) => !binary_data(bytes@) && crate::diff::lossy_utf8(bytes@).len() == 0 && p@ == path@,
            ViewerContent::File { path: p, lines, syntax_name: n } =>
                !binary_data(bytes@) && crate::diff::lossy_utf8(bytes@).len() > 0
                && p@ == path@ && lines_view(lines@) == text_lines(crate::diff::lossy_utf8(bytes@)) && n == syntax_name,
            _ => false,
        },
{
    if is_binary(bytes) {
        return ViewerContent::Binary(to_owned_string(path));
    }
    let text = crate::diff::decode_lossy(bytes);
    if text.as_str().unicode_len() == 0 {
        return ViewerContent::Empty(to_owned_string(path));
    }
    let lines = split_lines(text.as_str());
    ViewerContent::File { path: to_owned_string(path), lines, syntax_name }
}

/// The message shown when the file was deleted.
pub fn deleted_message(path: &str) -> (r: ViewerContent)
    ensures
        match r {
            ViewerContent::Error(m) => m@ == path@ + " \u{2014} File has been deleted from disk"@,
            _ => false,
        },
{
    let mut m = to_owned_string(path);
    push_str(&mut m, " \u{2014} File has been deleted from disk");
    ViewerContent::Error(m)
}

/// The message shown when the file cannot be read, with the reason.
pub fn unreadable_message(path: &str, reason: &str) -> (r: ViewerContent)
    ensures
        match r {
            ViewerContent::Error(m) => m@ == "Cannot read "@ + path@ + ": "@ + reason@,
            _ => false,
        },
{
    let mut m = to_owned_string("Cannot read ");
    push_str(&mut m, path);
    push_str(&mut m, ": ");
    push_str(&mut m, reason);
    ViewerContent::Error(m)
}

} // verus!
