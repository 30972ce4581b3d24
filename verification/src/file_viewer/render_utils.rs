//! Layout helpers for the viewer: the gutter width and horizontal scrolling
//! of styled text.
use vstd::prelude::*;
use crate::text::{decimal, lemma_decimal_len, chars_of, string_from_char_range};

verus! {

proof fn lemma_decimal_len_bound(n: nat)
    ensures
        decimal(n).len() <= n + 1,
    decreases n,
{
    lemma_decimal_len(n);
    if n >= 10 {
        lemma_decimal_len_bound(n / 10);
    }
}

/// The width of the line-number gutter for `total_lines` lines: the number of
/// decimal digits of `total_lines` (1 for an empty file).
pub fn line_number_width(total_lines: usize) -> (r: usize)
    ensures
        r == decimal(total_lines as nat).len(),
    decreases total_lines,
{
    proof {
        lemma_decimal_len(total_lines as nat);
    }
    if total_lines < 10 {
        1
    } else {
        let w = line_number_width(total_lines / 10);
        proof {
            lemma_decimal_len((total_lines / 10) as nat);
            lemma_decimal_len_bound((total_lines / 10) as nat);
        }
        w + 1
    }
}

/// The characters and style of each span.
pub open spec fn span_views<S>(spans: Seq<(String, S)>) -> Seq<(Seq<char>, S)> {
    spans.map_values(|p: (String, S)| (p.0@, p.1))
}

/// The spans that remain after dropping the first `skip` characters of their
/// concatenation: spans wholly inside the dropped prefix go, the span the
/// prefix ends in keeps its remaining characters, and the spans after it stay
/// as they are. Each span keeps its style.
pub open spec fn skipped_spans<S>(spans: Seq<(Seq<char>, S)>, skip: nat) -> Seq<(Seq<char>, S)>
    decreases spans.len(),
{
    if spans.len() == 0 || skip == 0 {
        spans
    } else if skip >= spans[0].0.len() {
        skipped_spans(spans.drop_first(), (skip - spans[0].0.len()) as nat)
    } else {
        seq![(spans[0].0.skip(skip as int), spans[0].1)] + spans.drop_first()
    }
}

/// The total number of characters in a sequence of spans.
pub open spec fn span_chars<S>(spans: Seq<(Seq<char>, S)>) -> nat
    decreases spans.len(),
{
    if spans.len() == 0 {
        0
    } else {
        spans[0].0.len() + span_chars(spans.drop_first())
    }
}

/// Skip the first `skip` characters (not bytes) of a row of styled spans,
/// keeping the style of every span that remains.
pub fn skip_chars_in_spans<S: Copy>(spans: Vec<(String, S)>, skip: usize) -> (r: Vec<(String, S)>)
    ensures
        span_views(r@) == skipped_spans(span_views(spans@), skip as nat),
{
    let ghost all = span_views(spans@);
    let mut remaining: usize = skip;
    let mut result: Vec<(String, S)> = Vec::new();
    let mut i: usize = 0;
    proof {
        assert(all.skip(0) =~= all);
        assert(span_views(result@) + all =~= all);
    }
    while i < spans.len()
        invariant
            i <= spans@.len(),
            all == span_views(spans@),
            span_views(result@) + skipped_spans(all.skip(i as int), remaining as nat)
                == skipped_spans(all, skip as nat),
        decreases spans.len() - i,
    {
        let ghost rest = all.skip(i as int);
        proof {
            assert(rest[0] == (spans@[i as int].0@, spans@[i as int].1));
            assert(rest.drop_first() =~= all.skip(i as int + 1));
        }
        let cs = chars_of(spans[i].0.as_str());
        let style = spans[i].1;
        if remaining > 0 && remaining >= cs.len() {
            remaining = remaining - cs.len();
        } else {
            let text = string_from_char_range(&cs, remaining, cs.len());
            let ghost before = span_views(result@);
            result.push((text, style));
            proof {
                assert(span_views(result@) =~= before.push((cs@.skip(remaining as int), style)));
                assert(skipped_spans(all.skip(i as int + 1), 0) == all.skip(i as int + 1));
                if remaining == 0 {
                    assert(cs@.skip(0) =~= cs@);
                    assert(rest =~= seq![rest[0]] + rest.drop_first());
                }
                assert(span_views(result@) + all.skip(i as int + 1)
                    =~= before + skipped_spans(rest, remaining as nat));
            }
            remaining = 0;
        }
        i = i + 1;
    }
    proof {
        assert(all.skip(spans@.len() as int) =~= Seq::<(Seq<char>, S)>::empty());
        assert(span_views(result@) + Seq::<(Seq<char>, S)>::empty() =~= span_views(result@));
    }
    result
}

} // verus!
