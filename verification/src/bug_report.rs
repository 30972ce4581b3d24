//! Pre-filled issue URLs for bug reports and crash reports.
use vstd::prelude::*;
use vstd::utf8::encode_utf8;
use crate::text::{push_char, push_str, first_line, first_line_of};

verus! {

pub const REPO_URL: &'static str = "https://github.com/YutaUra/gati";
pub const MAX_URL_LEN: usize = 8000;

/// The environment facts that a report carries.
pub struct BugReportEnv {
    pub gati_version: String,
    pub os: String,
    pub term: String,
    pub shell: String,
    pub locale: String,
    pub colorterm: String,
    pub terminal_size: String,
    pub is_ssh: bool,
}

/// `s`, or `"unknown"` when it is empty.
pub open spec fn or_unknown(s: Seq<char>) -> Seq<char> {
    if s.len() == 0 { "unknown"@ } else { s }
}

/// The "Environment" section of a report.
pub open spec fn env_section(env: BugReportEnv) -> Seq<char> {
    "## Environment\n\n"@
        + "- **gati version**: "@ + env.gati_version@ + "\n"@
        + "- **OS**: "@ + env.os@ + "\n"@
        + "- **Terminal**: "@ + or_unknown(env.term@) + "\n"@
        + "- **Shell**: "@ + or_unknown(env.shell@) + "\n"@
        + "- **Terminal size**: "@ + env.terminal_size@ + "\n"@
        + (if env.colorterm@.len() == 0 { Seq::empty() } else { "- **Color support**: "@ + env.colorterm@ + "\n"@ })
        + (if env.locale@.len() == 0 { Seq::empty() } else { "- **Locale**: "@ + env.locale@ + "\n"@ })
        + (if env.is_ssh { "- **SSH**: yes\n"@ } else { Seq::empty() })
}

fn push_or_unknown(s: &mut String, v: &String)
    ensures
        final(s)@ == old(s)@ + or_unknown(v@),
{
    proof {
        lemma_empty_bytes(v@);
    }
    if v.as_str().as_bytes().len() == 0 {
        push_str(s, "unknown");
    } else {
        push_str(s, v.as_str());
    }
}

proof fn lemma_empty_bytes(s: Seq<char>)
    ensures
        (encode_utf8(s).len() == 0) == (s.len() == 0),
{
    if s.len() > 0 {
        vstd::utf8::encode_utf8_first_scalar(s);
        vstd::utf8::char_is_scalar(s[0]);
        vstd::utf8::encode_utf8_valid_utf8(s);
    }
}

/// Format the environment section of a report.
pub fn format_env_section(env: &BugReportEnv) -> (r: String)
    ensures
        r@ == env_section(*env),
{
    let mut s = String::new();
    push_str(&mut s, "## Environment\n\n");
    push_str(&mut s, "- **gati version**: ");
    push_str(&mut s, env.gati_version.as_str());
    push_str(&mut s, "\n");
    push_str(&mut s, "- **OS**: ");
    push_str(&mut s, env.os.as_str());
    push_str(&mut s, "\n");
    push_str(&mut s, "- **Terminal**: ");
    push_or_unknown(&mut s, &env.term);
    push_str(&mut s, "\n");
    push_str(&mut s, "- **Shell**: ");
    push_or_unknown(&mut s, &env.shell);
    push_str(&mut s, "\n");
    push_str(&mut s, "- **Terminal size**: ");
    push_str(&mut s, env.terminal_size.as_str());
    push_str(&mut s, "\n");
    let ghost mid = s@;
    proof {
        lemma_empty_bytes(env.colorterm@);
        lemma_empty_bytes(env.locale@);
    }
    if env.colorterm.as_str().as_bytes().len() != 0 {
        push_str(&mut s, "- **Color support**: ");
        push_str(&mut s, env.colorterm.as_str());
        push_str(&mut s, "\n");
    }
    let ghost mid2 = s@;
    if env.locale.as_str().as_bytes().len() != 0 {
        push_str(&mut s, "- **Locale**: ");
        push_str(&mut s, env.locale.as_str());
        push_str(&mut s, "\n");
    }
    let ghost mid3 = s@;
    if env.is_ssh {
        push_str(&mut s, "- **SSH**: yes\n");
    }
    assert(mid2 =~= mid + (if env.colorterm@.len() == 0 { Seq::empty() } else { "- **Color support**: "@ + env.colorterm@ + "\n"@ }));
    assert(mid3 =~= mid2 + (if env.locale@.len() == 0 { Seq::empty() } else { "- **Locale**: "@ + env.locale@ + "\n"@ }));
    assert(s@ =~= mid3 + (if env.is_ssh { "- **SSH**: yes\n"@ } else { Seq::empty() }));
    assert(s@ =~= env_section(*env));
    s
}

/// Bytes passed through unchanged by the percent-encoding.
pub open spec fn is_unreserved(b: u8) -> bool {
    (0x41 <= b <= 0x5a) || (0x61 <= b <= 0x7a) || (0x30 <= b <= 0x39) || b == 0x2d || b == 0x5f || b == 0x2e || b == 0x7e
}

/// Upper-case hex digit of a value below 16.
pub open spec fn hex_upper(d: u8) -> char {
    if d < 10 { (0x30 + d) as char } else { (0x41 + d - 10) as char }
}

/// The percent-encoding of one byte: unreserved bytes as themselves, space as
/// `+`, anything else as `%XX`.
pub open spec fn encode_byte(b: u8) -> Seq<char> {
    if is_unreserved(b) {
        seq![b as char]
    } else if b == 0x20 {
        seq!['+']
    } else {
        seq!['%', hex_upper(b / 16), hex_upper(b % 16)]
    }
}

/// The percent-encoding of a byte sequence.
pub open spec fn url_encoded(bytes: Seq<u8>) -> Seq<char>
    decreases bytes.len(),
{
    if bytes.len() == 0 {
        Seq::empty()
    } else {
        url_encoded(bytes.drop_last()) + encode_byte(bytes.last())
    }
}

fn hex_digit(d: u8) -> (c: char)
    requires
        d < 16,
    ensures
        c == hex_upper(d),
{
    if d < 10 { (0x30u8 + d) as char } else { (0x41u8 + d - 10) as char }
}

/// Percent-encode the first `n` bytes of `bytes`, appending to `out`.
fn push_url_encoded(out: &mut String, bytes: &[u8], n: usize)
    requires
        n <= bytes@.len(),
    ensures
        final(out)@ == old(out)@ + url_encoded(bytes@.take(n as int)),
{
    let ghost start = out@;
    let mut i: usize = 0;
    while i < n
        invariant
            i <= n <= bytes@.len(),
            out@ == start + url_encoded(bytes@.take(i as int)),
        decreases n - i,
    {
        let b = bytes[i];
        if (b >= 0x41 && b <= 0x5a) || (b >= 0x61 && b <= 0x7a) || (b >= 0x30 && b <= 0x39) || b == 0x2d || b == 0x5f || b == 0x2e || b == 0x7e {
            push_char(out, b as char);
        } else if b == 0x20 {
            push_char(out, '+');
        } else {
            push_char(out, '%');
            push_char(out, hex_digit(b / 16));
            push_char(out, hex_digit(b % 16));
        }
        proof {
            let t = bytes@.take(i as int + 1);
            assert(t.drop_last() =~= bytes@.take(i as int));
            assert(t.last() == b);
            assert(out@ =~= start + url_encoded(t));
        }
        i = i + 1;
    }
}

/// Minimal percent-encoding for URL query parameters, byte by byte.
pub fn url_encode(s: &str) -> (r: String)
    ensures
        r@ == url_encoded(encode_utf8(s@)),
{
    let bytes = s.as_bytes();
    let mut out = String::new();
    push_url_encoded(&mut out, bytes, bytes.len());
    assert(bytes@.take(bytes@.len() as int) =~= bytes@);
    assert(out@ =~= url_encoded(encode_utf8(s@)));
    out
}

/// An issue URL: `<base>&title=<title>&body=<body>`, both percent-encoded.
pub open spec fn issue_url(base: Seq<char>, title: Seq<u8>, body: Seq<u8>) -> Seq<char> {
    base + "&title="@ + url_encoded(title) + "&body="@ + url_encoded(body)
}

/// Byte length of a string.
pub open spec fn byte_len(s: Seq<char>) -> nat {
    encode_utf8(s).len()
}

/// The marker appended to a shortened body.
pub open spec fn truncation_marker() -> Seq<u8> {
    encode_utf8("...(truncated)"@)
}

/// The body sent when its first `n` bytes are kept: the whole body when
/// nothing is cut, else the kept bytes and the marker.
pub open spec fn marked_body(body: Seq<u8>, n: nat) -> Seq<u8> {
    if n < body.len() { body.take(n as int) + truncation_marker() } else { body }
}

/// Whether the URL with the first `n` bytes of the body kept (and the
/// marker, when that cuts the body) fits the limit.
pub open spec fn fits_with(base: Seq<char>, title: Seq<u8>, body: Seq<u8>, n: nat) -> bool {
    byte_len(issue_url(base, title, marked_body(body, n))) <= MAX_URL_LEN
}

/// The number of body bytes that truncation keeps, starting from `n`:
/// while the URL with the marker does not fit, cut the body to nine tenths
/// of its length, back to the last character boundary of `body`.
pub open spec fn shrunk_len(base: Seq<char>, title: Seq<u8>, body: Seq<char>, n: nat) -> nat
    decreases n,
{
    if fits_with(base, title, encode_utf8(body), n) || n == 0 || n > encode_utf8(body).len() {
        n
    } else {
        proof {
            crate::unicode::lemma_floor_boundary_below(body, (n * 9 / 10) as int);
        }
        shrunk_len(base, title, body, crate::unicode::floor_boundary(body, (n * 9 / 10) as int) as nat)
    }
}

/// The URL with its body truncated, as far as needed, to fit `MAX_URL_LEN`:
/// a shortened body is cut on a character boundary and gets the marker
/// `...(truncated)` appended, and it is the URL with the marker that fits
/// (a body cut to nothing is sent empty).
pub open spec fn fitted_url(base: Seq<char>, title: Seq<u8>, body: Seq<char>) -> Seq<char> {
    let bb = encode_utf8(body);
    if byte_len(issue_url(base, title, bb)) <= MAX_URL_LEN {
        issue_url(base, title, bb)
    } else {
        let n = shrunk_len(base, title, body, bb.len());
        if n > 0 && n < bb.len() {
            issue_url(base, title, marked_body(bb, n))
        } else {
            issue_url(base, title, bb.take(n as int))
        }
    }
}

/// Truncation stops where the URL with the marker fits, or at nothing.
proof fn lemma_shrunk_stops(base: Seq<char>, title: Seq<u8>, body: Seq<char>, n: nat)
    requires
        n <= encode_utf8(body).len(),
    ensures
        shrunk_len(base, title, body, n) <= n,
        fits_with(base, title, encode_utf8(body), shrunk_len(base, title, body, n)) || shrunk_len(base, title, body, n) == 0,
    decreases n,
{
    if !(fits_with(base, title, encode_utf8(body), n) || n == 0) {
        crate::unicode::lemma_floor_boundary_below(body, (n * 9 / 10) as int);
        lemma_shrunk_stops(base, title, body, crate::unicode::floor_boundary(body, (n * 9 / 10) as int) as nat);
    }
}

/// When the URL fits with an empty body, the fitted URL fits the limit.
pub proof fn lemma_fitted_url_fits(base: Seq<char>, title: Seq<u8>, body: Seq<char>)
    requires
        byte_len(issue_url(base, title, Seq::empty())) <= MAX_URL_LEN,
    ensures
        byte_len(fitted_url(base, title, body)) <= MAX_URL_LEN,
{
    let bb = encode_utf8(body);
    if byte_len(issue_url(base, title, bb)) > MAX_URL_LEN {
        lemma_shrunk_stops(base, title, body, bb.len());
        let n = shrunk_len(base, title, body, bb.len());
        if n == 0 {
            assert(bb.take(0) =~= Seq::<u8>::empty());
        } else if n == bb.len() {
            assert(marked_body(bb, n) == bb);
        }
    }
}

fn format_issue_url(base: &str, title: &[u8], body: &[u8], n: usize) -> (r: String)
    requires
        n <= body@.len(),
    ensures
        r@ == issue_url(base@, title@, body@.take(n as int)),
{
    let mut out = String::new();
    push_str(&mut out, base);
    push_str(&mut out, "&title=");
    push_url_encoded(&mut out, title, title.len());
    push_str(&mut out, "&body=");
    push_url_encoded(&mut out, body, n);
    assert(title@.take(title@.len() as int) =~= title@);
    assert(out@ =~= issue_url(base@, title@, body@.take(n as int)));
    out
}

/// The bytes of `body` that are sent when its first `n` bytes are kept (see
/// [`marked_body`]).
fn marked_bytes(body: &[u8], n: usize) -> (r: Vec<u8>)
    requires
        n <= body@.len(),
    ensures
        r@ == marked_body(body@, n as nat),
{
    let mut kept: Vec<u8> = Vec::new();
    let mut i: usize = 0;
    while i < n
        invariant
            i <= n <= body@.len(),
            kept@ == body@.take(i as int),
        decreases n - i,
    {
        kept.push(body[i]);
        i = i + 1;
        assert(kept@ =~= body@.take(i as int));
    }
    if n < body.len() {
        let marker = "...(truncated)".as_bytes();
        let mut j: usize = 0;
        let ghost base_kept = kept@;
        while j < marker.len()
            invariant
                j <= marker@.len(),
                kept@ == base_kept + marker@.take(j as int),
            decreases marker.len() - j,
        {
            kept.push(marker[j]);
            j = j + 1;
            assert(kept@ =~= base_kept + marker@.take(j as int));
        }
        assert(marker@.take(marker@.len() as int) =~= marker@);
    } else {
        assert(body@.take(n as int) =~= body@);
    }
    kept
}

/// The URL for `base`, `title` and `body`, its body truncated to fit the
/// limit: with the base and title fitting, the URL is at most
/// `MAX_URL_LEN` bytes long.
pub fn build_url_with_truncation(base: &str, title: &[u8], body: &str) -> (r: String)
    ensures
        r@ == fitted_url(base@, title@, body@),
        byte_len(issue_url(base@, title@, Seq::empty())) <= MAX_URL_LEN ==> byte_len(r@) <= MAX_URL_LEN,
{
    proof {
        if byte_len(issue_url(base@, title@, Seq::empty())) <= MAX_URL_LEN {
            lemma_fitted_url_fits(base@, title@, body@);
        }
    }
    let bytes = body.as_bytes();
    let len = bytes.len();
    let url = format_issue_url(base, title, bytes, len);
    assert(bytes@.take(len as int) =~= bytes@);
    if url.as_str().as_bytes().len() <= MAX_URL_LEN {
        return url;
    }
    let mut n = len;
    loop
        invariant
            n <= len,
            len == bytes@.len(),
            bytes@ == encode_utf8(body@),
            shrunk_len(base@, title@, body@, n as nat) == shrunk_len(base@, title@, body@, len as nat),
        ensures
            n <= len,
            n == shrunk_len(base@, title@, body@, len as nat),
        decreases n,
    {
        let cand = marked_bytes(bytes, n);
        let u = format_issue_url(base, title, cand.as_slice(), cand.len());
        assert(cand@.take(cand@.len() as int) =~= cand@);
        if u.as_str().as_bytes().len() <= MAX_URL_LEN || n == 0 {
            break;
        }
        let x = n / 10 * 9 + n % 10 * 9 / 10;
        assert(x == n * 9 / 10) by (nonlinear_arith)
            requires
                x == n / 10 * 9 + n % 10 * 9 / 10;
        let next = crate::unicode::floor_char_boundary(body, x);
        proof {
            crate::unicode::lemma_floor_boundary_below(body@, x as int);
        }
        n = next;
    }
    let r = if n > 0 && n < len {
        let cand = marked_bytes(bytes, n);
        assert(cand@.take(cand@.len() as int) =~= cand@);
        format_issue_url(base, title, cand.as_slice(), cand.len())
    } else {
        format_issue_url(base, title, bytes, n)
    };
    r
}

pub const USER_TEMPLATE: &'static str = "## What happened?\n\n<!-- A clear description of the bug or feedback -->\n\n\n## Steps to reproduce\n\n<!-- How can we reproduce this? -->\n1. \n2. \n3. \n\n## Expected behavior\n\n<!-- What did you expect to happen? -->\n\n\n## Additional context\n\n<!-- Screenshots, error messages, or anything else that might help -->\n\n";

/// The body of a user-initiated report: the template when the user wrote
/// nothing, their description otherwise; then the environment section.
pub open spec fn user_report_body(body: Seq<char>, env: BugReportEnv) -> Seq<char> {
    if body.len() == 0 {
        USER_TEMPLATE@ + "\n"@ + env_section(env)
    } else {
        "## Description\n\n"@ + body + "\n\n"@ + env_section(env)
    }
}

/// Build a pre-filled GitHub issue URL for a user-initiated bug report.
pub fn build_url(title: &str, body: &str, env: &BugReportEnv) -> (r: String)
    ensures
        r@ == fitted_url(REPO_URL@ + "/issues/new?labels=bug"@, encode_utf8(title@), user_report_body(body@, *env)),
        byte_len(issue_url(REPO_URL@ + "/issues/new?labels=bug"@, encode_utf8(title@), Seq::empty())) <= MAX_URL_LEN ==> byte_len(r@) <= MAX_URL_LEN,
{
    let env_section = format_env_section(env);
    let mut full_body = String::new();
    proof {
        lemma_empty_bytes(body@);
    }
    if body.as_bytes().len() == 0 {
        push_str(&mut full_body, USER_TEMPLATE);
        push_str(&mut full_body, "\n");
        push_str(&mut full_body, env_section.as_str());
    } else {
        push_str(&mut full_body, "## Description\n\n");
        push_str(&mut full_body, body);
        push_str(&mut full_body, "\n\n");
        push_str(&mut full_body, env_section.as_str());
    }
    assert(full_body@ =~= user_report_body(body@, *env));
    let mut base = String::new();
    push_str(&mut base, REPO_URL);
    push_str(&mut base, "/issues/new?labels=bug");
    build_url_with_truncation(base.as_str(), title.as_bytes(), full_body.as_str())
}

/// The body of a crash report around the crash log.
pub open spec fn crash_report_body(crash_log: Seq<char>, env: BugReportEnv) -> Seq<char> {
    "## Crash Report\n\ngati crashed unexpectedly. The information below has been automatically collected to help diagnose the issue.\n\n### Crash log\n\n```\n"@
        + crash_log
        + "\n```\n\n## Steps to reproduce\n\n<!-- What were you doing when the crash occurred? -->\n1. \n2. \n3. \n\n## Additional context\n\n<!-- Any other details that might help -->\n\n"@
        + env_section(env)
}

/// The first line of the crash log (`"unknown panic"` when there is none).
pub open spec fn crash_first_line(crash_log: Seq<char>) -> Seq<char> {
    match first_line_of(crash_log) {
        Some(l) => l,
        None => "unknown panic"@,
    }
}

/// The title bytes of a crash report: `crash: ` and at most the first 60
/// bytes of the log's first line, cut on a character boundary.
pub open spec fn crash_title(crash_log: Seq<char>) -> Seq<u8> {
    let l = crash_first_line(crash_log);
    encode_utf8("crash: "@) + encode_utf8(l).take(crate::unicode::floor_boundary(l, 60))
}

/// Build a pre-filled GitHub issue URL specifically for panic reports.
pub fn build_panic_url(crash_log: &str, env: &BugReportEnv) -> (r: String)
    ensures
        r@ == fitted_url(REPO_URL@ + "/issues/new?labels=bug%2Ccrash"@, crash_title(crash_log@), crash_report_body(crash_log@, *env)),
        byte_len(issue_url(REPO_URL@ + "/issues/new?labels=bug%2Ccrash"@, crash_title(crash_log@), Seq::empty())) <= MAX_URL_LEN ==> byte_len(r@) <= MAX_URL_LEN,
{
    let env_section = format_env_section(env);
    let mut full_body = String::new();
    push_str(&mut full_body, "## Crash Report\n\ngati crashed unexpectedly. The information below has been automatically collected to help diagnose the issue.\n\n### Crash log\n\n```\n");
    push_str(&mut full_body, crash_log);
    push_str(&mut full_body, "\n```\n\n## Steps to reproduce\n\n<!-- What were you doing when the crash occurred? -->\n1. \n2. \n3. \n\n## Additional context\n\n<!-- Any other details that might help -->\n\n");
    push_str(&mut full_body, env_section.as_str());
    assert(full_body@ =~= crash_report_body(crash_log@, *env));
    let first = match first_line(crash_log) {
        Some(l) => l,
        None => {
            let mut u = String::new();
            push_str(&mut u, "unknown panic");
            assert(u@ =~= "unknown panic"@);
            u
        },
    };
    let fb = first.as_str().as_bytes();
    let cut: usize = crate::unicode::floor_char_boundary(first.as_str(), 60);
    let prefix = "crash: ".as_bytes();
    let mut title: Vec<u8> = Vec::new();
    let mut i: usize = 0;
    while i < prefix.len()
        invariant
            i <= prefix@.len(),
            title@ == prefix@.take(i as int),
        decreases prefix.len() - i,
    {
        title.push(prefix[i]);
        i = i + 1;
        assert(title@ =~= prefix@.take(i as int));
    }
    assert(prefix@.take(prefix@.len() as int) =~= prefix@);
    let mut k: usize = 0;
    while k < cut
        invariant
            k <= cut <= fb@.len(),
            title@ == prefix@ + fb@.take(k as int),
        decreases cut - k,
    {
        title.push(fb[k]);
        k = k + 1;
        assert(title@ =~= prefix@ + fb@.take(k as int));
    }
    assert(title@ =~= crash_title(crash_log@));
    let mut base = String::new();
    push_str(&mut base, REPO_URL);
    push_str(&mut base, "/issues/new?labels=bug%2Ccrash");
    build_url_with_truncation(base.as_str(), title.as_slice(), full_body.as_str())
}

/// Result of attempting to open a URL in the browser.
pub enum OpenResult {
    /// Browser opened successfully.
    Opened,
    /// Browser failed to open; URL is available for display.
    Failed(String),
}

/// Format a URL as a clickable terminal hyperlink using OSC 8, terminated by BEL.
pub fn hyperlink(url: &str, text: &str) -> (r: String)
    ensures
        r@ == "\x1b]8;;"@ + url@ + "\x07"@ + text@ + "\x1b]8;;\x07"@,
{
    let mut s = String::new();
    push_str(&mut s, "\x1b]8;;");
    push_str(&mut s, url);
    push_str(&mut s, "\x07");
    push_str(&mut s, text);
    push_str(&mut s, "\x1b]8;;\x07");
    assert(s@ =~= "\x1b]8;;"@ + url@ + "\x07"@ + text@ + "\x1b]8;;\x07"@);
    s
}

} // verus!
