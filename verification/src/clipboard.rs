//! Copying text to the clipboard through the terminal (OSC 52).
use vstd::prelude::*;
use crate::text::{push_char, push_str};
use base64::Engine;

verus! {

/// Error type for clipboard copy operations.
#[derive(Debug)]
pub enum CopyError {
    /// OSC 52 write to stdout failed (unlikely in practice).
    Osc52Failed,
}

impl CopyError {
    /// The message describing the error.
    pub fn message(&self) -> (r: &'static str)
        ensures
            r@ == "Failed to write OSC 52 escape sequence"@,
    {
        match self {
            CopyError::Osc52Failed => "Failed to write OSC 52 escape sequence",
        }
    }
}

/// The character of the standard base64 alphabet (RFC 4648) for the 6-bit
/// value `v`.
pub open spec fn base64_digit(v: int) -> char {
    if v < 26 {
        ('A' as int + v) as char
    } else if v < 52 {
        ('a' as int + v - 26) as char
    } else if v < 62 {
        ('0' as int + v - 52) as char
    } else if v == 62 {
        '+'
    } else {
        '/'
    }
}

/// The standard base64 encoding of some bytes (RFC 4648): each group of
/// three bytes becomes four characters, and a final group of one or two
/// bytes is padded with `=` to four.
pub open spec fn base64_standard(b: Seq<u8>) -> Seq<char>
    decreases b.len(),
{
    if b.len() == 0 {
        Seq::empty()
    } else {
        let x = b[0] as int;
        let y = if b.len() > 1 { b[1] as int } else { 0 };
        let z = if b.len() > 2 { b[2] as int } else { 0 };
        if b.len() == 1 {
            seq![base64_digit(x / 4), base64_digit((x % 4) * 16), '=', '=']
        } else if b.len() == 2 {
            seq![base64_digit(x / 4), base64_digit((x % 4) * 16 + y / 16), base64_digit((y % 16) * 4), '=']
        } else {
            seq![base64_digit(x / 4), base64_digit((x % 4) * 16 + y / 16), base64_digit((y % 16) * 4 + z / 64), base64_digit(z % 64)]
                + base64_standard(b.skip(3))
        }
    }
}

/// Base64-encode `bytes` with the standard alphabet and padding.
///
/// Trusted: calls `Engine::encode` of `base64::engine::general_purpose::STANDARD`
/// (the standard alphabet with padding), whose output the contract states
/// through [`base64_standard`].
#[verifier::external_body]
fn encode_base64(bytes: &[u8]) -> (r: String)
    ensures
        r@ == base64_standard(bytes@),
{
    base64::engine::general_purpose::STANDARD.encode(bytes)
}

/// The OSC 52 sequence that asks the terminal to put `text` on the clipboard:
/// ESC `]52;c;`, the base64 of the text's UTF-8 bytes, then BEL.
pub open spec fn osc52_of(text: Seq<char>) -> Seq<char> {
    seq!['\u{1b}'] + "]52;c;"@ + base64_standard(vstd::utf8::encode_utf8(text)) + seq!['\u{7}']
}

/// Build the OSC 52 escape sequence for `text`.
pub fn osc52_sequence(text: &str) -> (r: String)
    ensures
        r@ == osc52_of(text@),
{
    let bytes = text.as_bytes();
    let encoded = encode_base64(bytes);
    let mut out = String::new();
    push_char(&mut out, '\u{1b}');
    push_str(&mut out, "]52;c;");
    push_str(&mut out, encoded.as_str());
    push_char(&mut out, '\u{7}');
    proof {
        reveal_strlit("]52;c;");
        assert(out@ =~= osc52_of(text@));
    }
    out
}

} // verus!
