//! Byte/character offset helpers for UTF-8 strings.
use vstd::prelude::*;
use vstd::utf8::*;

verus! {

broadcast use vstd::utf8::group_utf8_lib;

/// The UTF-8 bytes of a character sequence (what `str::len` counts).
pub open spec fn utf8_of(chars: Seq<char>) -> Seq<u8> {
    encode_utf8(chars)
}

/// Number of UTF-8 bytes used by the first `k` characters of `chars`.
pub open spec fn byte_len_of_prefix(chars: Seq<char>, k: int) -> nat {
    encode_utf8(chars.take(k)).len()
}

/// True when byte index `i` of the UTF-8 encoding of `chars` starts a character
/// (or is the end of the string).
pub open spec fn on_char_boundary(chars: Seq<char>, i: int) -> bool {
    is_char_boundary(encode_utf8(chars), i)
}

/// The UTF-8 encoding distributes over concatenation.
pub proof fn lemma_encode_utf8_concat(a: Seq<char>, b: Seq<char>)
    ensures
        encode_utf8(a + b) == encode_utf8(a) + encode_utf8(b),
    decreases a.len(),
{
    if a.len() == 0 {
        assert(a + b =~= b);
        assert(encode_utf8(a) =~= Seq::<u8>::empty());
        assert(encode_utf8(a) + encode_utf8(b) =~= encode_utf8(b));
    } else {
        lemma_encode_utf8_concat(a.drop_first(), b);
        assert((a + b).drop_first() =~= a.drop_first() + b);
        assert((a + b)[0] == a[0]);
        assert(encode_utf8(a + b) =~= encode_scalar(a[0] as u32) + encode_utf8(a.drop_first() + b));
        assert(encode_utf8(a) =~= encode_scalar(a[0] as u32) + encode_utf8(a.drop_first()));
    }
}

/// The number of bytes that `c` takes in UTF-8.
pub open spec fn char_width(c: char) -> nat {
    encode_scalar(c as u32).len()
}

/// Computes the UTF-8 width of a character from its code point.
pub fn utf8_width(c: char) -> (w: usize)
    ensures
        w == char_width(c),
        1 <= w <= 4,
{
    proof {
        char_is_scalar(c);
    }
    let v = c as u32;
    if v < 0x80 {
        1
    } else if v < 0x800 {
        2
    } else if v < 0x10000 {
        3
    } else {
        4
    }
}

proof fn lemma_prefix_len_step(chars: Seq<char>, k: int)
    requires
        0 <= k < chars.len(),
    ensures
        byte_len_of_prefix(chars, k + 1) == byte_len_of_prefix(chars, k) + char_width(chars[k]),
{
    lemma_encode_utf8_concat(chars.take(k), seq![chars[k]]);
    assert(chars.take(k + 1) =~= chars.take(k) + seq![chars[k]]);
    assert(seq![chars[k]].drop_first() =~= Seq::<char>::empty());
    assert(encode_utf8(seq![chars[k]]) =~= encode_scalar(chars[k] as u32) + encode_utf8(
        Seq::<char>::empty(),
    ));
}

proof fn lemma_prefix_len_bounded(chars: Seq<char>, k: int)
    requires
        0 <= k <= chars.len(),
    ensures
        byte_len_of_prefix(chars, k) <= encode_utf8(chars).len(),
        k == chars.len() ==> byte_len_of_prefix(chars, k) == encode_utf8(chars).len(),
{
    lemma_encode_utf8_concat(chars.take(k), chars.skip(k));
    assert(chars.take(k) + chars.skip(k) =~= chars);
    if k == chars.len() {
        assert(chars.take(k) =~= chars);
    }
}

/// The byte length of a prefix of whole characters is always a character boundary.
pub proof fn lemma_prefix_len_is_boundary(chars: Seq<char>, k: int)
    requires
        0 <= k <= chars.len(),
    ensures
        on_char_boundary(chars, byte_len_of_prefix(chars, k) as int),
    decreases k,
{
    let bytes = encode_utf8(chars);
    if k == 0 {
        assert(chars.take(0) =~= Seq::<char>::empty());
    } else {
        let rest = chars.drop_first();
        encode_utf8_first_scalar(chars);
        assert(pop_first_scalar(bytes) =~= encode_utf8(rest));
        lemma_prefix_len_is_boundary(rest, k - 1);
        assert(chars.take(k) =~= seq![chars[0]] + rest.take(k - 1));
        lemma_encode_utf8_concat(seq![chars[0]], rest.take(k - 1));
        assert(seq![chars[0]].drop_first() =~= Seq::<char>::empty());
        assert(encode_utf8(seq![chars[0]]) =~= encode_scalar(chars[0] as u32) + encode_utf8(
            Seq::<char>::empty(),
        ));
        let idx = byte_len_of_prefix(chars, k) as int;
        assert(idx == encode_scalar(chars[0] as u32).len() + byte_len_of_prefix(rest, k - 1));
        lemma_prefix_len_bounded(chars, k);
        assert(idx > 0);
    }
}

/// The largest character boundary of `s` at or below byte `x` (all of `s`
/// when `x` reaches its end, 0 below its start).
pub open spec fn floor_boundary(s: Seq<char>, x: int) -> int
    decreases x,
{
    if x >= utf8_of(s).len() {
        utf8_of(s).len() as int
    } else if x <= 0 {
        0
    } else if on_char_boundary(s, x) {
        x
    } else {
        floor_boundary(s, x - 1)
    }
}

/// A boundary `r` at or below `x` with no boundary after it up to `x` is
/// the floor boundary of `x`.
proof fn lemma_floor_boundary_is(s: Seq<char>, x: int, r: int)
    requires
        x < utf8_of(s).len() ==> {
            &&& 0 <= r <= x
            &&& on_char_boundary(s, r)
            &&& forall|q: int| r < q <= x ==> !on_char_boundary(s, q)
        },
        x >= utf8_of(s).len() ==> r == utf8_of(s).len(),
    ensures
        floor_boundary(s, x) == r,
    decreases x - r,
{
    if x < utf8_of(s).len() && x > r {
        lemma_floor_boundary_is(s, x - 1, r);
    }
}

/// The floor boundary of a byte inside the text lies between 0 and it.
pub proof fn lemma_floor_boundary_below(s: Seq<char>, x: int)
    requires
        0 <= x < utf8_of(s).len(),
    ensures
        0 <= floor_boundary(s, x) <= x,
    decreases x,
{
    if x > 0 && !on_char_boundary(s, x) {
        lemma_floor_boundary_below(s, x - 1);
    }
}

/// Return the byte position of the last complete character that fits within
/// `max_bytes` bytes from the start of `s`.
///
/// If `max_bytes >= s.len()`, returns `s.len()`.
pub fn floor_char_boundary(s: &str, max_bytes: usize) -> (r: usize)
    ensures
        r == floor_boundary(s@, max_bytes as int),
        max_bytes >= utf8_of(s@).len() ==> r == utf8_of(s@).len(),
        max_bytes < utf8_of(s@).len() ==> {
            &&& r <= max_bytes
            &&& on_char_boundary(s@, r as int)
            &&& forall|q: int| r < q <= max_bytes ==> !on_char_boundary(s@, q)
        },
{
    let n = s.as_bytes().len();
    if max_bytes >= n {
        return n;
    }
    let mut pos = max_bytes;
    proof {
        is_char_boundary_start_end_of_seq(encode_utf8(s@));
    }
    while pos > 0 && !s.is_char_boundary(pos)
        invariant
            pos <= max_bytes,
            max_bytes < encode_utf8(s@).len(),
            forall|q: int| pos < q <= max_bytes ==> !on_char_boundary(s@, q),
        decreases pos,
    {
        pos -= 1;
    }
    proof {
        is_char_boundary_start_end_of_seq(encode_utf8(s@));
    }
    proof {
        lemma_floor_boundary_is(s@, max_bytes as int, pos as int);
    }
    pos
}

/// Return the byte offset reached after skipping `skip_chars` characters from
/// the start of `s`.
///
/// If `skip_chars` exceeds the number of characters in `s`, returns `s.len()`.
pub fn char_skip_byte_offset(s: &str, skip_chars: usize) -> (r: usize)
    ensures
        skip_chars < s@.len() ==> r == byte_len_of_prefix(s@, skip_chars as int),
        skip_chars >= s@.len() ==> r == utf8_of(s@).len(),
        r <= utf8_of(s@).len(),
{
    let n = s.as_bytes().len();
    let mut count: usize = 0;
    let mut byte_pos: usize = 0;
    for c in iter: s.chars()
        invariant
            n == utf8_of(s@).len(),
            count == iter.index(),
            iter.seq() == s@,
            count <= s@.len(),
            count <= skip_chars,
            byte_pos == byte_len_of_prefix(s@, count as int),
    {
        if count == skip_chars {
            proof {
                lemma_prefix_len_bounded(s@, count as int);
            }
            return byte_pos;
        }
        proof {
            lemma_prefix_len_step(s@, count as int);
            lemma_prefix_len_bounded(s@, count + 1);
        }
        byte_pos = byte_pos + utf8_width(c);
        count = count + 1;
    }
    proof {
        lemma_prefix_len_bounded(s@, s@.len() as int);
    }
    byte_pos
}

/// A character-skip offset never splits a character, so flooring it to a
/// boundary leaves it unchanged.
pub proof fn lemma_skip_offset_is_boundary(chars: Seq<char>, k: int)
    requires
        0 <= k,
    ensures
        on_char_boundary(chars, byte_len_of_prefix(chars, if k < chars.len() { k } else { chars.len() as int }) as int),
{
    if k < chars.len() {
        lemma_prefix_len_is_boundary(chars, k);
    } else {
        lemma_prefix_len_is_boundary(chars, chars.len() as int);
    }
}

/// The number of UTF-8 bytes of `s` (what `str::len` gives).
pub fn byte_len(s: &str) -> (n: usize)
    ensures
        n == utf8_of(s@).len(),
{
    s.as_bytes().len()
}

/// How many characters of `s`, from character `i` on with `used` bytes
/// already taken, fit in `budget` bytes: characters are taken in order while
/// their UTF-8 bytes fit.
pub open spec fn fit_from(s: Seq<char>, i: int, used: int, budget: int) -> int
    decreases s.len() - i,
{
    if i < 0 || i >= s.len() || used + char_width(s[i]) > budget {
        i
    } else {
        fit_from(s, i + 1, used + char_width(s[i]), budget)
    }
}

/// The number of leading characters of `s` whose UTF-8 bytes fit in `budget`
/// bytes.
pub open spec fn fitting_chars(s: Seq<char>, budget: int) -> int {
    fit_from(s, 0, 0, budget)
}

/// The number of leading characters of `s` that fit in `max_bytes` bytes:
/// the prefix that ends at the last character boundary within `max_bytes`.
pub fn fitting_char_count(s: &str, max_bytes: usize) -> (k: usize)
    ensures
        k == fitting_chars(s@, max_bytes as int),
        k <= s@.len(),
        byte_len_of_prefix(s@, k as int) <= max_bytes,
{
    let mut k: usize = 0;
    let mut used: usize = 0;
    proof {
        assert(s@.take(0) =~= Seq::<char>::empty());
    }
    for c in iter: s.chars()
        invariant
            iter.seq() == s@,
            k == iter.index(),
            k <= s@.len(),
            used == byte_len_of_prefix(s@, k as int),
            used <= max_bytes,
            k <= used,
            fit_from(s@, k as int, used as int, max_bytes as int) == fitting_chars(s@, max_bytes as int),
    {
        let w = utf8_width(c);
        proof {
            lemma_prefix_len_step(s@, k as int);
        }
        if w > max_bytes - used {
            return k;
        }
        used = used + w;
        k = k + 1;
    }
    k
}

} // verus!
