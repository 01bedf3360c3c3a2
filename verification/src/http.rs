use vstd::prelude::*;
use crate::binary_patch::spec_offsets_from;
use crate::parse::{
    find_char, line_ranges, parse_usize, slice_range, spec_lines, spec_parse_usize, spec_trim,
    trim_chars,
};
use crate::text::{chars_eq, chars_of, is_whitespace, spec_is_whitespace, string_of};

verus! {

/// The bytes that end the head of a request: `\r\n\r\n`.
pub open spec fn spec_head_terminator() -> Seq<u8> {
    seq![13u8, 10u8, 13u8, 10u8]
}

/// Where the head of a request ends: the first position of `\r\n\r\n`.
pub open spec fn spec_find_header_end(buffer: Seq<u8>) -> Option<nat> {
    let offs = spec_offsets_from(buffer, spec_head_terminator(), 0);
    if offs.len() > 0 {
        Some(offs[0])
    } else {
        None
    }
}

proof fn lemma_offsets_skip(buffer: Seq<u8>, needle: Seq<u8>, p: nat)
    requires
        p + needle.len() <= buffer.len(),
        buffer.subrange(p as int, (p + needle.len()) as int) != needle,
    ensures
        spec_offsets_from(buffer, needle, p) == spec_offsets_from(buffer, needle, p + 1),
{
}

/// The head ends at the first `\r\n\r\n`: the position found holds it and
/// no earlier position does; when none is found, it occurs nowhere.
pub proof fn lemma_header_end_is_first(buffer: Seq<u8>)
    ensures
        match spec_find_header_end(buffer) {
            Some(p) => p + 4 <= buffer.len() && buffer.subrange(p as int, p + 4int) == spec_head_terminator()
                && forall|q: nat| q < p ==> #[trigger] buffer.subrange(q as int, q + 4int) != spec_head_terminator(),
            None => forall|q: nat|
                q + 4 <= buffer.len() ==> #[trigger] buffer.subrange(q as int, q + 4int) != spec_head_terminator(),
        },
{
    let t = spec_head_terminator();
    let offs = spec_offsets_from(buffer, t, 0);
    crate::binary_patch::lemma_offsets_exact(buffer, t);
    assert(crate::binary_patch::spec_offsets(buffer, t) == offs);
    match spec_find_header_end(buffer) {
        Some(p) => {
            assert(offs.contains(p));
            assert forall|q: nat| q < p implies #[trigger] buffer.subrange(q as int, q + 4int) != t by {
                if q + 4 <= buffer.len() && buffer.subrange(q as int, q + 4int) == t {
                    assert(offs.contains(q));
                    let i = choose|i: int| 0 <= i < offs.len() && offs[i] == q;
                    if i > 0 {
                        assert(offs[0] < offs[i]);
                    }
                }
            }
        },
        None => {
            assert forall|q: nat| q + 4 <= buffer.len() implies #[trigger] buffer.subrange(q as int, q + 4int) != t by {
                if buffer.subrange(q as int, q + 4int) == t {
                    assert(offs.contains(q));
                }
            }
        },
    }
}

/// Finds where the head of a request ends.
pub fn find_header_end(buffer: &[u8]) -> (r: Option<usize>)
    ensures
        match spec_find_header_end(buffer@) {
            Some(p) => r == Some(p as usize),
            None => r is None,
        },
{
    if buffer.len() < 4 {
        assert(spec_offsets_from(buffer@, spec_head_terminator(), 0).len() == 0);
        return None;
    }
    let mut p: usize = 0;
    let last = buffer.len() - 4;
    while p <= last
        invariant
            last + 4 == buffer@.len(),
            p <= last + 1,
            buffer@.len() == buffer.len(),
            spec_offsets_from(buffer@, spec_head_terminator(), 0) == spec_offsets_from(
                buffer@,
                spec_head_terminator(),
                p as nat,
            ),
        decreases buffer.len() - p,
    {
        if buffer[p] == 13u8 && buffer[p + 1] == 10u8 && buffer[p + 2] == 13u8 && buffer[p + 3] == 10u8 {
            assert(buffer@.subrange(p as int, p + 4) =~= spec_head_terminator());
            return Some(p);
        }
        assert(buffer@.subrange(p as int, p + 4)[0] == buffer@[p as int]);
        assert(buffer@.subrange(p as int, p + 4)[1] == buffer@[p + 1]);
        assert(buffer@.subrange(p as int, p + 4)[2] == buffer@[p + 2]);
        assert(buffer@.subrange(p as int, p + 4)[3] == buffer@[p + 3]);
        proof {
            lemma_offsets_skip(buffer@, spec_head_terminator(), p as nat);
        }
        if p == last {
            assert(spec_offsets_from(buffer@, spec_head_terminator(), (p + 1) as nat).len() == 0);
            return None;
        }
        p = p + 1;
    }
    None
}

/// The reason phrase of a status code in a response's status line.
pub open spec fn spec_reason_phrase(status: u16) -> Seq<char> {
    if status == 200 {
        "OK"@
    } else if status == 400 {
        "Bad Request"@
    } else if status == 404 {
        "Not Found"@
    } else if status == 500 {
        "Internal Server Error"@
    } else {
        "OK"@
    }
}

/// The reason phrase of a status code.
pub fn reason_phrase(status: u16) -> (r: &'static str)
    ensures
        r@ == spec_reason_phrase(status),
{
    if status == 200 {
        "OK"
    } else if status == 400 {
        "Bad Request"
    } else if status == 404 {
        "Not Found"
    } else if status == 500 {
        "Internal Server Error"
    } else {
        "OK"
    }
}

/// The first position at or after `i` that holds white space, or the end.
pub open spec fn spec_token_end(s: Seq<char>, i: nat) -> nat
    decreases s.len() - i,
{
    if i >= s.len() || spec_is_whitespace(s[i as int]) {
        i
    } else {
        spec_token_end(s, i + 1)
    }
}

/// The first position at or after `i` that holds no white space, or the end.
pub open spec fn spec_token_start(s: Seq<char>, i: nat) -> nat
    decreases s.len() - i,
{
    if i < s.len() && spec_is_whitespace(s[i as int]) {
        spec_token_start(s, i + 1)
    } else {
        i
    }
}

/// The white-space separated words of `s[i..]`, as `str::split_whitespace` gives.
pub open spec fn spec_words_from(s: Seq<char>, i: nat) -> Seq<Seq<char>>
    decreases s.len() - i, 1nat,
{
    let a = spec_token_start(s, i);
    if a >= s.len() {
        Seq::empty()
    } else {
        proof {
            lemma_token_bounds(s, i);
            lemma_token_end_bounds(s, a);
        }
        let b = spec_token_end(s, a);
        seq![s.subrange(a as int, b as int)] + spec_words_from(s, b)
    }
}

/// The white-space separated words of `s`.
pub open spec fn spec_words(s: Seq<char>) -> Seq<Seq<char>> {
    spec_words_from(s, 0)
}

/// A word start lies at or after where the search began.
pub proof fn lemma_token_bounds(s: Seq<char>, i: nat)
    ensures
        i <= spec_token_start(s, i),
        spec_token_start(s, i) < s.len() ==> !spec_is_whitespace(s[spec_token_start(s, i) as int]),
    decreases s.len() - i,
{
    if i < s.len() && spec_is_whitespace(s[i as int]) {
        lemma_token_bounds(s, i + 1);
    }
}

/// A word that starts on a non-space character ends after it.
pub proof fn lemma_token_end_bounds(s: Seq<char>, a: nat)
    ensures
        a < s.len() && !spec_is_whitespace(s[a as int]) ==> a < spec_token_end(s, a),
        a <= spec_token_end(s, a),
        a <= s.len() ==> spec_token_end(s, a) <= s.len(),
    decreases s.len() - a,
{
    if a < s.len() && !spec_is_whitespace(s[a as int]) {
        lemma_token_end_bounds(s, a + 1);
    }
}

fn token_start(s: &[char], i: usize) -> (r: usize)
    requires
        i <= s@.len(),
    ensures
        r == spec_token_start(s@, i as nat),
        i <= r <= s@.len(),
{
    let mut k = i;
    while k < s.len() && is_whitespace(s[k])
        invariant
            i <= k <= s@.len(),
            spec_token_start(s@, i as nat) == spec_token_start(s@, k as nat),
        decreases s.len() - k,
    {
        k = k + 1;
    }
    k
}

fn token_end(s: &[char], i: usize) -> (r: usize)
    requires
        i <= s@.len(),
    ensures
        r == spec_token_end(s@, i as nat),
        i <= r <= s@.len(),
{
    let mut k = i;
    while k < s.len() && !is_whitespace(s[k])
        invariant
            i <= k <= s@.len(),
            spec_token_end(s@, i as nat) == spec_token_end(s@, k as nat),
        decreases s.len() - k,
    {
        k = k + 1;
    }
    k
}

/// The first two white-space separated words of `s[lo..hi]`, if there are.
fn first_two_words(s: &[char], lo: usize, hi: usize) -> (r: (Option<Vec<char>>, Option<Vec<char>>))
    requires
        lo <= hi <= s@.len(),
    ensures
        ({
            let w = spec_words(s@.subrange(lo as int, hi as int));
            &&& (w.len() > 0 ==> (r.0 matches Some(x) && x@ == w[0]))
            &&& (w.len() == 0 ==> r.0 is None)
            &&& (w.len() > 1 ==> (r.1 matches Some(x) && x@ == w[1]))
            &&& (w.len() <= 1 ==> r.1 is None)
        }),
{
    let line = slice_range(s, lo, hi);
    let ls = line.as_slice();
    let ghost t = ls@;
    let a = token_start(ls, 0);
    if a >= ls.len() {
        return (None, None);
    }
    proof {
        lemma_token_bounds(t, 0);
        lemma_token_end_bounds(t, a as nat);
    }
    let b = token_end(ls, a);
    let first = slice_range(ls, a, b);
    assert(spec_words(t)[0] == t.subrange(a as int, b as int));
    let c = token_start(ls, b);
    if c >= ls.len() {
        assert(spec_words_from(t, b as nat).len() == 0);
        assert(spec_words(t).len() == 1);
        return (Some(first), None);
    }
    proof {
        lemma_token_bounds(t, b as nat);
        lemma_token_end_bounds(t, c as nat);
    }
    let d = token_end(ls, c);
    let second = slice_range(ls, c, d);
    assert(spec_words_from(t, b as nat)[0] == t.subrange(c as int, d as int));
    assert(spec_words(t)[1] == spec_words_from(t, b as nat)[0]);
    (Some(first), Some(second))
}

/// A character made lower case when it is an ASCII upper-case letter.
pub open spec fn spec_ascii_lower(c: char) -> char {
    if 'A' <= c <= 'Z' {
        ((c as u32) + 32) as char
    } else {
        c
    }
}

/// `s` with ASCII upper-case letters made lower case, as `str::to_ascii_lowercase` gives.
pub open spec fn spec_to_ascii_lowercase(s: Seq<char>) -> Seq<char> {
    s.map_values(|c: char| spec_ascii_lower(c))
}

fn ascii_lower(c: char) -> (r: char)
    ensures
        r == spec_ascii_lower(c),
{
    if 'A' <= c && c <= 'Z' {
        ((c as u32 + 32) as u8) as char
    } else {
        c
    }
}

/// The head of a request as read: the method, the path and the body length.
#[derive(Clone, Debug, PartialEq, Eq)]
pub struct RequestHead {
    pub method: String,
    pub path: String,
    pub content_length: usize,
}

/// A header line's name and value: the text before the first `:`, trimmed
/// and made ASCII lower case, and the text after it, trimmed; `None` for a
/// line without `:`.
pub open spec fn spec_header(line: Seq<char>) -> Option<(Seq<char>, Seq<char>)> {
    match crate::parse::spec_find_char(line, ':', 0) {
        None => None,
        Some(j) => Some(
            (
                spec_to_ascii_lowercase(spec_trim(line.subrange(0, j as int))),
                spec_trim(line.subrange((j + 1) as int, line.len() as int)),
            ),
        ),
    }
}

/// The value of the last `content-length` header among `lines[1..n]`.
pub open spec fn spec_last_content_length(lines: Seq<Seq<char>>, n: nat) -> Option<Seq<char>>
    decreases n,
{
    if n <= 1 || n > lines.len() {
        None
    } else {
        match spec_header(lines[n - 1]) {
            Some((name, value)) => if name == "content-length"@ {
                Some(value)
            } else {
                spec_last_content_length(lines, (n - 1) as nat)
            },
            None => spec_last_content_length(lines, (n - 1) as nat),
        }
    }
}

/// The head of a request read from its text: the first two words of the
/// first line are the method (empty when missing) and the path (`/` when
/// missing); the body length is the last `content-length` header's value
/// read as a `usize`, and zero when it is absent or unreadable.
pub open spec fn spec_request_head(text: Seq<char>) -> (Seq<char>, Seq<char>, nat) {
    let lines = spec_lines(text);
    let first = if lines.len() > 0 {
        lines[0]
    } else {
        Seq::empty()
    };
    let words = spec_words(first);
    let method = if words.len() > 0 {
        words[0]
    } else {
        Seq::empty()
    };
    let path = if words.len() > 1 {
        words[1]
    } else {
        "/"@
    };
    let length = match spec_last_content_length(lines, lines.len()) {
        Some(v) => match spec_parse_usize(v) {
            Some(n) => n,
            None => 0,
        },
        None => 0,
    };
    (method, path, length)
}

fn header_of(line: &[char]) -> (r: Option<(Vec<char>, Vec<char>)>)
    ensures
        match spec_header(line@) {
            None => r is None,
            Some((n, v)) => r matches Some(x) && x.0@ == n && x.1@ == v,
        },
{
    let j = match find_char(line, ':', 0) {
        None => return None,
        Some(j) => j,
    };
    assert(line@.len() == line.len());
    let (a, b) = trim_chars(line, 0, j);
    let (c, d) = trim_chars(line, j + 1, line.len());
    let name_raw = slice_range(line, a, b);
    let mut name: Vec<char> = Vec::new();
    let mut k: usize = 0;
    while k < name_raw.len()
        invariant
            k <= name_raw@.len(),
            name@ == spec_to_ascii_lowercase(name_raw@.subrange(0, k as int)),
        decreases name_raw.len() - k,
    {
        name.push(ascii_lower(name_raw[k]));
        k = k + 1;
        assert(name@ =~= spec_to_ascii_lowercase(name_raw@.subrange(0, k as int)));
    }
    assert(name_raw@.subrange(0, name_raw@.len() as int) =~= name_raw@);
    let value = slice_range(line, c, d);
    Some((name, value))
}

/// Reads the head of a request from its text.
pub fn parse_request_text(text: &str) -> (r: RequestHead)
    ensures
        (r.method@, r.path@, r.content_length as nat) == spec_request_head(text@),
{
    let cs = chars_of(text);
    let s = cs.as_slice();
    let ranges = line_ranges(s);
    let ghost lines = spec_lines(s@);
    let (lo, hi) = if ranges.len() > 0 { ranges[0] } else { (0, 0) };
    assert(ranges.len() == 0 ==> s@.subrange(lo as int, hi as int) =~= Seq::<char>::empty());
    let (first, second) = first_two_words(s, lo, hi);
    let method = match first {
        Some(w) => string_of(w.as_slice()),
        None => String::new(),
    };
    let path = match second {
        Some(w) => string_of(w.as_slice()),
        None => "/".to_owned(),
    };
    let key = chars_of("content-length");
    let mut last: Option<Vec<char>> = None;
    let mut i: usize = 1;
    while i < ranges.len()
        invariant
            1 <= i,
            i <= ranges@.len() || ranges@.len() == 0,
            ranges@.len() == lines.len(),
            lines == spec_lines(s@),
            key@ == "content-length"@,
            forall|k: int|
                0 <= k < ranges@.len() ==> (#[trigger] ranges@[k]).0 <= ranges@[k].1 <= s@.len()
                    && s@.subrange(ranges@[k].0 as int, ranges@[k].1 as int) == lines[k],
            match spec_last_content_length(lines, i as nat) {
                None => last is None,
                Some(v) => last matches Some(x) && x@ == v,
            },
        decreases ranges.len() - i,
    {
        let (a, b) = ranges[i];
        let line = slice_range(s, a, b);
        match header_of(line.as_slice()) {
            Some((name, value)) => {
                if chars_eq(name.as_slice(), key.as_slice()) {
                    last = Some(value);
                }
            },
            None => {},
        }
        i = i + 1;
    }
    assert(ranges@.len() > 0 ==> i == ranges@.len());
    let content_length = match last {
        None => 0,
        Some(v) => match parse_usize(string_of(v.as_slice()).as_str()) {
            Some(n) => n,
            None => 0,
        },
    };
    RequestHead { method, path, content_length }
}

/// The characters that decoding `bytes` as UTF-8 gives when each invalid
/// sequence is replaced by U+FFFD, as `String::from_utf8_lossy` does.
pub uninterp spec fn spec_utf8_lossy(bytes: Seq<u8>) -> Seq<char>;

/// Decodes bytes as UTF-8, replacing each invalid sequence by U+FFFD.
///
/// Calls `String::from_utf8_lossy`. The result is named `spec_utf8_lossy`
/// of the bytes; on valid UTF-8 it is the decoded text, as the function's
/// documentation states. What it gives on invalid input is not stated here.
#[verifier::external_body]
fn utf8_lossy(bytes: &[u8]) -> (r: String)
    ensures
        r@ == spec_utf8_lossy(bytes@),
        vstd::utf8::valid_utf8(bytes@) ==> r@ == vstd::utf8::decode_utf8(bytes@),
{
    String::from_utf8_lossy(bytes).into_owned()
}

/// Reads the head of a request from its bytes (those before `\r\n\r\n`).
pub fn parse_request_head(header: &[u8]) -> (r: RequestHead)
    ensures
        (r.method@, r.path@, r.content_length as nat) == spec_request_head(spec_utf8_lossy(header@)),
{
    let text = utf8_lossy(header);
    parse_request_text(text.as_str())
}

} // verus!
