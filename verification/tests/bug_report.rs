use gati::bug_report::{build_panic_url, build_url, url_encode, BugReportEnv, MAX_URL_LEN};

fn sample_env() -> BugReportEnv {
    BugReportEnv {
        gati_version: String::from("0.1.0"),
        os: String::from("linux"),
        term: String::from("xterm-256color"),
        shell: String::from("/bin/zsh"),
        locale: String::from("en_US.UTF-8"),
        colorterm: String::from("truecolor"),
        terminal_size: String::from("120x40"),
        is_ssh: false,
    }
}

/// Rough URL decode for test assertions (handles + and %XX).
fn url_decode_rough(s: &str) -> String {
    let s = s.replace('+', " ");
    let bytes = s.as_bytes();
    let mut out: Vec<u8> = Vec::new();
    let mut i = 0;
    while i < bytes.len() {
        if bytes[i] == b'%' && i + 2 < bytes.len() {
            let hex = &s[i + 1..i + 3];
            if let Ok(byte) = u8::from_str_radix(hex, 16) {
                out.push(byte);
                i += 3;
                continue;
            }
        }
        out.push(bytes[i]);
        i += 1;
    }
    String::from_utf8_lossy(&out).into_owned()
}

#[test]
fn build_url_contains_env_info() {
    let env = sample_env();
    let url = build_url("Test bug", "Something broke", &env);
    let decoded = url_decode_rough(&url);
    assert!(decoded.contains("gati version"));
    assert!(decoded.contains("0.1.0"));
    assert!(decoded.contains("linux"));
}

#[test]
fn build_url_contains_terminal_info() {
    let url = build_url("Test", "", &sample_env());
    let decoded = url_decode_rough(&url);
    assert!(decoded.contains("Terminal"));
    assert!(decoded.contains("Shell"));
    assert!(decoded.contains("Terminal size"));
}

#[test]
fn build_url_empty_body_has_user_template() {
    let url = build_url("Bug report", "", &sample_env());
    let decoded = url_decode_rough(&url);
    assert!(decoded.contains("What happened?"));
    assert!(decoded.contains("Steps to reproduce"));
    assert!(decoded.contains("Expected behavior"));
}

#[test]
fn build_url_with_body_shows_description() {
    let url = build_url("My title", "Detailed description", &sample_env());
    let decoded = url_decode_rough(&url);
    assert!(decoded.contains("Detailed description"));
    assert!(decoded.contains("Description"));
}

#[test]
fn build_url_under_max_length() {
    let long_body = "x".repeat(20000);
    let url = build_url("Bug", &long_body, &sample_env());
    assert!(url.len() <= MAX_URL_LEN);
}

#[test]
fn build_url_starts_with_github_issues() {
    let url = build_url("title", "body", &sample_env());
    assert!(url.starts_with("https://github.com/YutaUra/gati/issues/new"));
}

#[test]
fn panic_url_contains_crash_info() {
    let crash_log = "panicked at 'index out of bounds: len 5, index 10', src/app.rs:123:5\n\nstack backtrace:\n  0: main";
    let url = build_panic_url(crash_log, &sample_env());
    let decoded = url_decode_rough(&url);
    assert!(decoded.contains("Crash Report"));
    assert!(decoded.contains("index out of bounds"));
    assert!(decoded.contains("src/app.rs:123:5"));
}

#[test]
fn panic_url_has_crash_label() {
    let url = build_panic_url("panicked at 'oops', main.rs:1:1", &sample_env());
    assert!(url.contains("labels=bug%2Ccrash"));
}

#[test]
fn panic_url_includes_backtrace_in_body() {
    let crash_log = "panicked at 'fail', src/lib.rs:10:5\n\nstack backtrace:\n  0: std::panicking\n  1: app::run";
    let url = build_panic_url(crash_log, &sample_env());
    let decoded = url_decode_rough(&url);
    assert!(decoded.contains("stack backtrace"));
    assert!(decoded.contains("app::run"));
}

#[test]
fn url_encode_handles_special_chars() {
    assert_eq!(url_encode("hello world"), "hello+world");
    assert_eq!(url_encode("a&b=c"), "a%26b%3Dc");
}

#[test]
fn truncated_url_with_marker_stays_within_the_limit() {
    for n in [2000usize, 2700, 2800, 5000, 20000] {
        let url = build_url("Bug", &"x".repeat(n), &sample_env());
        assert!(url.len() <= MAX_URL_LEN, "{} bytes for a body of {}", url.len(), n);
    }
    let url = build_url("Bug", &"x".repeat(20000), &sample_env());
    assert!(url.ends_with("...%28truncated%29"));
}

#[test]
fn truncation_never_splits_a_character() {
    // every character takes three bytes, so a cut off a boundary would
    // leave a partial sequence in the decoded body
    let url = build_url("Bug", &"\u{3042}".repeat(5000), &sample_env());
    assert!(url.len() <= MAX_URL_LEN);
    let body = url.split("&body=").nth(1).unwrap();
    let mut bytes = Vec::new();
    let b = body.as_bytes();
    let mut i = 0;
    while i < b.len() {
        if b[i] == b'%' {
            bytes.push(u8::from_str_radix(std::str::from_utf8(&b[i + 1..i + 3]).unwrap(), 16).unwrap());
            i += 3;
        } else {
            bytes.push(if b[i] == b'+' { b' ' } else { b[i] });
            i += 1;
        }
    }
    let text = String::from_utf8(bytes).expect("the body is whole UTF-8");
    assert!(text.ends_with("...(truncated)"));
}

#[test]
fn panic_title_is_cut_on_a_character_boundary() {
    let log = "\u{3042}".repeat(30);
    let url = build_panic_url(&log, &sample_env());
    // 60 bytes hold twenty three-byte characters
    let expected = url_encode(&format!("crash: {}", "\u{3042}".repeat(20)));
    assert!(url.contains(&format!("&title={}&body=", expected)));
}
