use vstd::prelude::*;
use crate::text::{chars_of, is_whitespace, spec_is_whitespace, string_of};

verus! {

/// `s` without its leading white space.
pub open spec fn spec_trim_start(s: Seq<char>) -> Seq<char>
    decreases s.len(),
{
    if s.len() > 0 && spec_is_whitespace(s[0]) {
        spec_trim_start(s.drop_first())
    } else {
        s
    }
}

/// `s` without its trailing white space.
pub open spec fn spec_trim_end(s: Seq<char>) -> Seq<char>
    decreases s.len(),
{
    if s.len() > 0 && spec_is_whitespace(s.last()) {
        spec_trim_end(s.drop_last())
    } else {
        s
    }
}

/// `s` without leading and trailing white space, as `str::trim` gives.
pub open spec fn spec_trim(s: Seq<char>) -> Seq<char> {
    spec_trim_end(spec_trim_start(s))
}

/// The characters `s[lo..hi]` with white space removed from both ends.
pub fn trim_chars(s: &[char], lo: usize, hi: usize) -> (r: (usize, usize))
    requires
        lo <= hi <= s@.len(),
    ensures
        lo <= r.0 <= r.1 <= hi,
        s@.subrange(r.0 as int, r.1 as int) == spec_trim(s@.subrange(lo as int, hi as int)),
{
    let mut a = lo;
    while a < hi && is_whitespace(s[a])
        invariant
            lo <= a <= hi <= s@.len(),
            spec_trim_start(s@.subrange(lo as int, hi as int)) == spec_trim_start(
                s@.subrange(a as int, hi as int),
            ),
        decreases hi - a,
    {
        assert(s@.subrange(a as int, hi as int).drop_first() =~= s@.subrange(a + 1, hi as int));
        a = a + 1;
    }
    let mut b = hi;
    while b > a && is_whitespace(s[b - 1])
        invariant
            lo <= a <= b <= hi <= s@.len(),
            spec_trim_end(s@.subrange(a as int, hi as int)) == spec_trim_end(
                s@.subrange(a as int, b as int),
            ),
        decreases b - a,
    {
        assert(s@.subrange(a as int, b as int).drop_last() =~= s@.subrange(a as int, b - 1));
        b = b - 1;
    }
    (a, b)
}

/// Trims white space from both ends of a string.
pub fn trim(s: &str) -> (r: String)
    ensures
        r@ == spec_trim(s@),
{
    let cs = chars_of(s);
    let (a, b) = trim_chars(cs.as_slice(), 0, cs.len());
    assert(cs@.subrange(0, cs@.len() as int) =~= cs@);
    string_of(slice_range(cs.as_slice(), a, b).as_slice())
}

/// The characters `s[lo..hi]`.
pub fn slice_range(s: &[char], lo: usize, hi: usize) -> (r: Vec<char>)
    requires
        lo <= hi <= s@.len(),
    ensures
        r@ == s@.subrange(lo as int, hi as int),
{
    let mut out: Vec<char> = Vec::new();
    let mut k = lo;
    while k < hi
        invariant
            lo <= k <= hi <= s@.len(),
            out@ == s@.subrange(lo as int, k as int),
        decreases hi - k,
    {
        out.push(s[k]);
        k = k + 1;
        assert(out@ =~= s@.subrange(lo as int, k as int));
    }
    out
}

/// The first position at or after `i` that holds `c`, if any.
pub open spec fn spec_find_char(s: Seq<char>, c: char, i: nat) -> Option<nat>
    decreases s.len() - i,
{
    if i >= s.len() {
        None
    } else if s[i as int] == c {
        Some(i)
    } else {
        spec_find_char(s, c, i + 1)
    }
}

/// A character found at or after `i` is found within the sequence.
pub proof fn lemma_find_char_bounds(s: Seq<char>, c: char, i: nat)
    ensures
        spec_find_char(s, c, i) matches Some(j) ==> i <= j < s.len(),
    decreases s.len() - i,
{
    if i < s.len() && s[i as int] != c {
        lemma_find_char_bounds(s, c, i + 1);
    }
}

/// A line without the `\r` that ends it, if any.
pub open spec fn spec_strip_cr(l: Seq<char>) -> Seq<char> {
    if l.len() > 0 && l.last() == '\r' {
        l.drop_last()
    } else {
        l
    }
}

/// The lines of `s[i..]` as `str::lines` gives them: split after each `\n`,
/// each terminated line loses its `\n` and then a `\r` before it; a last line
/// without `\n` is kept as it is, and nothing follows a final `\n`.
pub open spec fn spec_lines_from(s: Seq<char>, i: nat) -> Seq<Seq<char>>
    decreases s.len() - i,
{
    if i >= s.len() {
        Seq::empty()
    } else {
        proof {
            lemma_find_char_bounds(s, '\n', i);
        }
        match spec_find_char(s, '\n', i) {
            None => seq![s.subrange(i as int, s.len() as int)],
            Some(j) => seq![spec_strip_cr(s.subrange(i as int, j as int))] + spec_lines_from(
                s,
                j + 1,
            ),
        }
    }
}

/// The lines of `s`.
pub open spec fn spec_lines(s: Seq<char>) -> Seq<Seq<char>> {
    spec_lines_from(s, 0)
}

/// Finds the first position at or after `i` that holds `c`.
pub fn find_char(s: &[char], c: char, i: usize) -> (r: Option<usize>)
    requires
        i <= s@.len(),
    ensures
        match spec_find_char(s@, c, i as nat) {
            Some(j) => r == Some(j as usize) && i <= j < s@.len(),
            None => r is None,
        },
{
    let mut k = i;
    while k < s.len()
        invariant
            i <= k <= s@.len(),
            spec_find_char(s@, c, i as nat) == spec_find_char(s@, c, k as nat),
        decreases s.len() - k,
    {
        if s[k] == c {
            return Some(k);
        }
        k = k + 1;
    }
    None
}

/// The lines of a text, each as the range of its characters.
pub fn line_ranges(s: &[char]) -> (r: Vec<(usize, usize)>)
    ensures
        r@.len() == spec_lines(s@).len(),
        forall|k: int|
            0 <= k < r@.len() ==> (#[trigger] r@[k]).0 <= r@[k].1 <= s@.len() && s@.subrange(
                r@[k].0 as int,
                r@[k].1 as int,
            ) == spec_lines(s@)[k],
{
    let mut out: Vec<(usize, usize)> = Vec::new();
    let mut i: usize = 0;
    while i < s.len()
        invariant
            i <= s@.len(),
            out@.len() + spec_lines_from(s@, i as nat).len() == spec_lines(s@).len(),
            forall|k: int|
                0 <= k < out@.len() ==> (#[trigger] out@[k]).0 <= out@[k].1 <= s@.len() && s@.subrange(
                    out@[k].0 as int,
                    out@[k].1 as int,
                ) == spec_lines(s@)[k],
            forall|k: int|
                0 <= k < spec_lines_from(s@, i as nat).len() ==> #[trigger] spec_lines_from(
                    s@,
                    i as nat,
                )[k] == spec_lines(s@)[out@.len() + k],
        decreases s.len() - i,
    {
        let ghost rest = spec_lines_from(s@, i as nat);
        match find_char(s, '\n', i) {
            None => {
                out.push((i, s.len()));
                assert(rest[0] == s@.subrange(i as int, s@.len() as int));
                assert(spec_lines_from(s@, s@.len() as nat).len() == 0);
                i = s.len();
            },
            Some(j) => {
                let end = if j > i && s[j - 1] == '\r' { j - 1 } else { j };
                assert(s@.subrange(i as int, end as int) =~= spec_strip_cr(s@.subrange(i as int, j as int)));
                out.push((i, end));
                assert(rest[0] == spec_strip_cr(s@.subrange(i as int, j as int)));
                assert forall|k: int| 0 <= k < spec_lines_from(s@, (j + 1) as nat).len() implies #[trigger] spec_lines_from(
                    s@, (j + 1) as nat)[k] == spec_lines(s@)[out@.len() + k] by {
                    assert(rest[k + 1] == spec_lines_from(s@, (j + 1) as nat)[k]);
                }
                i = j + 1;
            },
        }
    }
    out
}

/// Whether `s` starts with `p`.
pub open spec fn spec_starts_with(s: Seq<char>, p: Seq<char>) -> bool {
    p.len() <= s.len() && s.subrange(0, p.len() as int) == p
}

/// Whether a string starts with a prefix.
pub fn starts_with(s: &str, p: &str) -> (r: bool)
    ensures
        r == spec_starts_with(s@, p@),
{
    let sc = chars_of(s);
    let pc = chars_of(p);
    if pc.len() > sc.len() {
        return false;
    }
    let mut k: usize = 0;
    while k < pc.len()
        invariant
            k <= pc@.len() <= sc@.len(),
            sc@ == s@,
            pc@ == p@,
            forall|j: int| 0 <= j < k ==> sc@[j] == pc@[j],
        decreases pc.len() - k,
    {
        if sc[k] != pc[k] {
            assert(sc@.subrange(0, pc@.len() as int)[k as int] != pc@[k as int]);
            return false;
        }
        k = k + 1;
    }
    assert(sc@.subrange(0, pc@.len() as int) =~= pc@);
    true
}

/// Whether `c` is an ASCII digit.
pub open spec fn spec_is_ascii_digit(c: char) -> bool {
    '0' <= c <= '9'
}

/// The value of a sequence of ASCII digits, read in decimal.
pub open spec fn spec_digits_value(s: Seq<char>) -> nat
    decreases s.len(),
{
    if s.len() == 0 {
        0
    } else {
        spec_digits_value(s.drop_last()) * 10 + ((s.last() as u32) - ('0' as u32)) as nat
    }
}

/// The text of a number without its leading `+`, if any.
pub open spec fn spec_unsigned_digits(s: Seq<char>) -> Seq<char> {
    if s.len() > 0 && s[0] == '+' {
        s.drop_first()
    } else {
        s
    }
}

/// Every character is an ASCII digit.
pub open spec fn spec_all_digits(s: Seq<char>) -> bool {
    forall|i: int| 0 <= i < s.len() ==> spec_is_ascii_digit(#[trigger] s[i])
}

/// What `str::parse::<usize>` gives: an optional `+` followed by one or more
/// ASCII digits whose value fits in `usize`.
pub open spec fn spec_parse_usize(s: Seq<char>) -> Option<nat> {
    let digits = spec_unsigned_digits(s);
    if digits.len() > 0 && spec_all_digits(digits) && spec_digits_value(digits) <= usize::MAX {
        Some(spec_digits_value(digits))
    } else {
        None
    }
}

proof fn lemma_digits_value_mono(s: Seq<char>, k: int)
    requires
        0 <= k <= s.len(),
        spec_all_digits(s),
    ensures
        spec_digits_value(s.subrange(0, k)) <= spec_digits_value(s),
    decreases s.len() - k,
{
    if k < s.len() {
        lemma_digits_value_mono(s, k + 1);
        assert(s.subrange(0, k + 1).drop_last() =~= s.subrange(0, k));
    } else {
        assert(s.subrange(0, k) =~= s);
    }
}

/// Parses a decimal `usize` as `str::parse::<usize>` does.
pub fn parse_usize(s: &str) -> (r: Option<usize>)
    ensures
        match spec_parse_usize(s@) {
            Some(v) => r == Some(v as usize),
            None => r is None,
        },
{
    let cs = chars_of(s);
    let start: usize = if cs.len() > 0 && cs[0] == '+' { 1 } else { 0 };
    let ghost digits = spec_unsigned_digits(s@);
    assert(cs@.subrange(start as int, cs@.len() as int) =~= digits);
    if start >= cs.len() {
        return None;
    }
    let mut value: usize = 0;
    let mut k = start;
    while k < cs.len()
        invariant
            start <= k <= cs@.len(),
            cs@ == s@,
            digits == cs@.subrange(start as int, cs@.len() as int),
            digits == spec_unsigned_digits(s@),
            forall|i: int| start <= i < k ==> spec_is_ascii_digit(#[trigger] cs@[i]),
            value == spec_digits_value(cs@.subrange(start as int, k as int)),
        decreases cs.len() - k,
    {
        let c = cs[k];
        if !('0' <= c && c <= '9') {
            proof {
                assert(digits[k - start] == c);
                assert(!spec_is_ascii_digit(digits[k - start]));
                assert(!spec_all_digits(digits));
            }
            return None;
        }
        let d = (c as u32 - '0' as u32) as usize;
        assert(cs@.subrange(start as int, k + 1).drop_last() =~= cs@.subrange(start as int, k as int));
        let next = match value.checked_mul(10) {
            Some(v) => v.checked_add(d),
            None => None,
        };
        match next {
            Some(v) => {
                value = v;
            },
            None => {
                proof {
                    assert(cs@.subrange(start as int, k + 1).last() == c);
                    assert(spec_digits_value(cs@.subrange(start as int, k + 1)) == value * 10 + d);
                    if spec_all_digits(digits) {
                        lemma_digits_value_mono(digits, k + 1 - start);
                        assert(digits.subrange(0, k + 1 - start) =~= cs@.subrange(start as int, k + 1));
                    }
                }
                return None;
            },
        }
        k = k + 1;
    }
    assert(spec_all_digits(digits)) by {
        assert forall|i: int| 0 <= i < digits.len() implies spec_is_ascii_digit(#[trigger] digits[i]) by {
            assert(digits[i] == cs@[i + start]);
        }
    }
    Some(value)
}

} // verus!
