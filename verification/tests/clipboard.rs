use base64::Engine;
use gati::clipboard::{osc52_sequence, CopyError};

#[test]
fn osc52_produces_correct_escape_sequence() {
    assert_eq!(osc52_sequence("hello"), "\x1b]52;c;aGVsbG8=\x07");
}

#[test]
fn osc52_empty_string() {
    assert_eq!(osc52_sequence(""), "\x1b]52;c;\x07");
}

#[test]
fn osc52_multibyte_payload_is_base64_of_utf8() {
    let out = osc52_sequence("こんにちは");
    assert_eq!(out, "\x1b]52;c;44GT44KT44Gr44Gh44Gv\x07");
}

#[test]
fn copy_error_message() {
    assert_eq!(CopyError::Osc52Failed.message(), "Failed to write OSC 52 escape sequence");
}

fn osc52_payload(output: &str) -> &str {
    output.strip_prefix("\x1b]52;c;").unwrap().strip_suffix("\x07").unwrap()
}

#[test]
fn osc52_multibyte_round_trips() {
    let text = "こんにちは";
    let output = osc52_sequence(text);
    let decoded = base64::engine::general_purpose::STANDARD.decode(osc52_payload(&output)).unwrap();
    assert_eq!(std::str::from_utf8(&decoded).unwrap(), text);
}

#[test]
fn osc52_special_characters() {
    let text = "line1\nline2\ttab";
    let output = osc52_sequence(text);
    let decoded = base64::engine::general_purpose::STANDARD.decode(osc52_payload(&output)).unwrap();
    assert_eq!(std::str::from_utf8(&decoded).unwrap(), text);
}
