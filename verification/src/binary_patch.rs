use vstd::prelude::*;
use crate::search::spec_byte_len;
use crate::text::{push_decimal, push_str, spec_decimal, str_eq, string_of};

verus! {

/// A salt found in a binary: its text, its length in bytes and the file it was found in.
#[derive(Clone, Debug, PartialEq, Eq)]
pub struct DetectedSalt {
    pub salt: String,
    pub length: usize,
    pub file_path: String,
}

/// The outcome of writing a new salt into a binary.
#[derive(Clone, Debug, PartialEq, Eq)]
pub struct ApplyResult {
    pub file_path: String,
    pub patch_count: usize,
    pub old_salt: String,
    pub new_salt: String,
}

/// The outcome of writing the original salt back into a binary.
#[derive(Clone, Debug, PartialEq, Eq)]
pub struct RestoreResult {
    pub file_path: String,
    pub patch_count: usize,
    pub previous_salt: String,
    pub restored_salt: String,
}

/// A binary as it was read: its path and its bytes.
#[derive(Clone, Debug, PartialEq, Eq)]
pub struct BinaryFile {
    pub path: String,
    pub contents: Vec<u8>,
}

/// Whether a byte is an ASCII decimal digit.
pub open spec fn spec_is_digit(b: u8) -> bool {
    48 <= b <= 57
}

/// Whether `count` ASCII digits stand in `buffer` from `start` on.
pub open spec fn spec_has_digits(buffer: Seq<u8>, start: nat, count: nat) -> bool {
    start + count <= buffer.len() && forall|k: int|
        0 <= k < count ==> spec_is_digit(#[trigger] buffer[start + k])
}

/// The end of the run of ASCII digits that starts at `cursor`.
pub open spec fn spec_digit_run_end(buffer: Seq<u8>, cursor: nat) -> nat
    decreases buffer.len() - cursor,
{
    if cursor < buffer.len() && spec_is_digit(buffer[cursor as int]) {
        spec_digit_run_end(buffer, cursor + 1)
    } else {
        cursor
    }
}

/// Where a salt that starts at `start` ends: the prefix, `digits` ASCII
/// digits, and, when `tail` is set, a `-` and one or more ASCII digits.
pub open spec fn spec_salt_at(buffer: Seq<u8>, prefix: Seq<u8>, digits: nat, tail: bool, start: nat) -> Option<nat> {
    let cursor = start + prefix.len();
    if cursor > buffer.len() || buffer.subrange(start as int, cursor as int) != prefix {
        None
    } else if !spec_has_digits(buffer, cursor, digits) {
        None
    } else if !tail {
        Some(cursor + digits)
    } else {
        let dash = cursor + digits;
        if dash < buffer.len() && buffer[dash as int] == 45u8 {
            let end = spec_digit_run_end(buffer, dash + 1);
            if end == dash + 1 {
                None
            } else {
                Some(end)
            }
        } else {
            None
        }
    }
}

/// The starts at which a salt is sought: every position before
/// `buffer.len() - prefix.len()` (none when the prefix is longer).
pub open spec fn spec_search_limit(buffer: Seq<u8>, prefix: Seq<u8>) -> nat {
    if buffer.len() > prefix.len() {
        (buffer.len() - prefix.len()) as nat
    } else {
        0
    }
}

/// The first salt among the starts from `start` on: its start and end.
pub open spec fn spec_first_salt_from(buffer: Seq<u8>, prefix: Seq<u8>, digits: nat, tail: bool, start: nat) -> Option<
    (nat, nat),
>
    decreases spec_search_limit(buffer, prefix) - start,
{
    if start >= spec_search_limit(buffer, prefix) {
        None
    } else {
        match spec_salt_at(buffer, prefix, digits, tail, start) {
            Some(end) => Some((start, end)),
            None => spec_first_salt_from(buffer, prefix, digits, tail, start + 1),
        }
    }
}

/// The first salt in a buffer with the given shape: its start and end.
pub open spec fn spec_find_prefixed_digits(buffer: Seq<u8>, prefix: Seq<u8>, digits: nat, tail: bool) -> Option<
    (nat, nat),
> {
    spec_first_salt_from(buffer, prefix, digits, tail, 0)
}

proof fn lemma_first_salt_from_is_first(buffer: Seq<u8>, prefix: Seq<u8>, digits: nat, tail: bool, start: nat)
    ensures
        match spec_first_salt_from(buffer, prefix, digits, tail, start) {
            Some((s, e)) => start <= s < spec_search_limit(buffer, prefix) && spec_salt_at(
                buffer,
                prefix,
                digits,
                tail,
                s,
            ) == Some(e) && forall|k: nat|
                start <= k < s ==> #[trigger] spec_salt_at(buffer, prefix, digits, tail, k) is None,
            None => forall|k: nat|
                start <= k < spec_search_limit(buffer, prefix) ==> #[trigger] spec_salt_at(
                    buffer,
                    prefix,
                    digits,
                    tail,
                    k,
                ) is None,
        },
    decreases spec_search_limit(buffer, prefix) - start,
{
    if start < spec_search_limit(buffer, prefix) {
        lemma_first_salt_from_is_first(buffer, prefix, digits, tail, start + 1);
    }
}

/// The salt found is the first one in the bytes: a salt of the given shape
/// starts at the position found and ends where reported, and none starts at
/// any earlier position; when none is found, none starts at any position
/// searched.
pub proof fn lemma_found_salt_is_first(buffer: Seq<u8>, prefix: Seq<u8>, digits: nat, tail: bool)
    ensures
        match spec_find_prefixed_digits(buffer, prefix, digits, tail) {
            Some((s, e)) => s < spec_search_limit(buffer, prefix) && spec_salt_at(buffer, prefix, digits, tail, s)
                == Some(e) && forall|k: nat|
                k < s ==> #[trigger] spec_salt_at(buffer, prefix, digits, tail, k) is None,
            None => forall|k: nat|
                k < spec_search_limit(buffer, prefix) ==> #[trigger] spec_salt_at(
                    buffer,
                    prefix,
                    digits,
                    tail,
                    k,
                ) is None,
        },
{
    lemma_first_salt_from_is_first(buffer, prefix, digits, tail, 0);
}

/// Whether `count` ASCII digits stand in `buffer` from `start` on.
pub fn has_digits(buffer: &[u8], start: usize, count: usize) -> (r: bool)
    ensures
        r == spec_has_digits(buffer@, start as nat, count as nat),
{
    if start > buffer.len() || count > buffer.len() - start {
        return false;
    }
    let mut k: usize = 0;
    while k < count
        invariant
            k <= count,
            start + count <= buffer@.len(),
            buffer@.len() == buffer.len(),
            forall|j: int| 0 <= j < k ==> spec_is_digit(#[trigger] buffer@[start + j]),
        decreases count - k,
    {
        let b = buffer[start + k];
        if !(48 <= b && b <= 57) {
            return false;
        }
        k = k + 1;
    }
    true
}

fn bytes_equal_at(buffer: &[u8], start: usize, pat: &[u8]) -> (r: bool)
    ensures
        r == (start + pat@.len() <= buffer@.len() && buffer@.subrange(
            start as int,
            start + pat@.len(),
        ) == pat@),
{
    if start > buffer.len() || pat.len() > buffer.len() - start {
        return false;
    }
    let mut k: usize = 0;
    while k < pat.len()
        invariant
            k <= pat@.len(),
            start + pat@.len() <= buffer@.len(),
            buffer@.len() == buffer.len(),
            forall|j: int| 0 <= j < k ==> buffer@[start + j] == pat@[j],
        decreases pat.len() - k,
    {
        if buffer[start + k] != pat[k] {
            assert(buffer@.subrange(start as int, start + pat@.len())[k as int] != pat@[k as int]);
            return false;
        }
        k = k + 1;
    }
    assert(buffer@.subrange(start as int, start + pat@.len()) =~= pat@);
    true
}

fn digit_run_end(buffer: &[u8], cursor: usize) -> (r: usize)
    requires
        cursor <= buffer@.len(),
    ensures
        r == spec_digit_run_end(buffer@, cursor as nat),
{
    let mut c = cursor;
    while c < buffer.len() && 48 <= buffer[c] && buffer[c] <= 57
        invariant
            cursor <= c <= buffer@.len(),
            spec_digit_run_end(buffer@, cursor as nat) == spec_digit_run_end(buffer@, c as nat),
        decreases buffer.len() - c,
    {
        c = c + 1;
    }
    c
}

fn salt_at(buffer: &[u8], prefix: &[u8], digits: usize, tail: bool, start: usize) -> (r: Option<usize>)
    requires
        start + prefix@.len() < buffer@.len(),
    ensures
        match spec_salt_at(buffer@, prefix@, digits as nat, tail, start as nat) {
            Some(e) => r == Some(e as usize),
            None => r is None,
        },
{
    if !bytes_equal_at(buffer, start, prefix) {
        return None;
    }
    assert(buffer@.len() == buffer.len());
    let cursor = start + prefix.len();
    if !has_digits(buffer, cursor, digits) {
        return None;
    }
    assert(cursor + digits <= buffer@.len());
    let dash = cursor + digits;
    if !tail {
        return Some(dash);
    }
    if dash < buffer.len() && buffer[dash] == 45u8 {
        let end = digit_run_end(buffer, dash + 1);
        if end == dash + 1 {
            None
        } else {
            Some(end)
        }
    } else {
        None
    }
}

/// Finds the first salt in a buffer with the given prefix, number of digits
/// and, when `tail` is set, a `-` and more digits: its start and end.
pub fn find_prefixed_digits(buffer: &[u8], prefix: &[u8], digits: usize, tail: bool) -> (r: Option<
    (usize, usize),
>)
    ensures
        match spec_find_prefixed_digits(buffer@, prefix@, digits as nat, tail) {
            Some((s, e)) => r == Some((s as usize, e as usize)),
            None => r is None,
        },
{
    let limit = buffer.len().saturating_sub(prefix.len());
    let mut start: usize = 0;
    while start < limit
        invariant
            limit == spec_search_limit(buffer@, prefix@),
            start <= limit,
            spec_find_prefixed_digits(buffer@, prefix@, digits as nat, tail)
                == spec_first_salt_from(buffer@, prefix@, digits as nat, tail, start as nat),
        decreases limit - start,
    {
        match salt_at(buffer, prefix, digits, tail, start) {
            Some(end) => {
                return Some((start, end));
            },
            None => {},
        }
        start = start + 1;
    }
    None
}


/// The bytes of `friend-`.
pub open spec fn spec_friend_prefix() -> Seq<u8> {
    seq![102u8, 114u8, 105u8, 101u8, 110u8, 100u8, 45u8]
}

/// The bytes of `ccbf-`.
pub open spec fn spec_ccbf_prefix() -> Seq<u8> {
    seq![99u8, 99u8, 98u8, 102u8, 45u8]
}

/// The bytes of `lab-`.
pub open spec fn spec_lab_prefix() -> Seq<u8> {
    seq![108u8, 97u8, 98u8, 45u8]
}

/// A `friend-` salt: `friend-`, four digits, `-`, one or more digits.
pub fn find_friend_salt(buffer: &[u8]) -> (r: Option<(usize, usize)>)
    ensures
        match spec_find_prefixed_digits(buffer@, spec_friend_prefix(), 4, true) {
            Some((s, e)) => r == Some((s as usize, e as usize)),
            None => r is None,
        },
{
    let prefix: Vec<u8> = vec![102u8, 114u8, 105u8, 101u8, 110u8, 100u8, 45u8];
    assert(prefix@ =~= spec_friend_prefix());
    find_prefixed_digits(buffer, prefix.as_slice(), 4, true)
}

/// A `ccbf-` salt: `ccbf-` and ten digits.
pub fn find_ccbf_salt(buffer: &[u8]) -> (r: Option<(usize, usize)>)
    ensures
        match spec_find_prefixed_digits(buffer@, spec_ccbf_prefix(), 10, false) {
            Some((s, e)) => r == Some((s as usize, e as usize)),
            None => r is None,
        },
{
    let prefix: Vec<u8> = vec![99u8, 99u8, 98u8, 102u8, 45u8];
    assert(prefix@ =~= spec_ccbf_prefix());
    find_prefixed_digits(buffer, prefix.as_slice(), 10, false)
}

/// A `lab-` salt: `lab-` and eleven digits.
pub fn find_lab_salt(buffer: &[u8]) -> (r: Option<(usize, usize)>)
    ensures
        match spec_find_prefixed_digits(buffer@, spec_lab_prefix(), 11, false) {
            Some((s, e)) => r == Some((s as usize, e as usize)),
            None => r is None,
        },
{
    let prefix: Vec<u8> = vec![108u8, 97u8, 98u8, 45u8];
    assert(prefix@ =~= spec_lab_prefix());
    find_prefixed_digits(buffer, prefix.as_slice(), 11, false)
}

/// The salt of a binary: the first `friend-` salt, else the first `ccbf-`
/// salt, else the first `lab-` salt; its start and end.
pub open spec fn spec_find_salt(buffer: Seq<u8>) -> Option<(nat, nat)> {
    match spec_find_prefixed_digits(buffer, spec_friend_prefix(), 4, true) {
        Some(m) => Some(m),
        None => match spec_find_prefixed_digits(buffer, spec_ccbf_prefix(), 10, false) {
            Some(m) => Some(m),
            None => spec_find_prefixed_digits(buffer, spec_lab_prefix(), 11, false),
        },
    }
}

/// The characters of the bytes `start..end`, each byte read as the character
/// with that code (what UTF-8 decoding gives for ASCII bytes).
pub open spec fn spec_ascii_text(buffer: Seq<u8>, start: nat, end: nat) -> Seq<char> {
    buffer.subrange(start as int, end as int).map_values(|b: u8| b as char)
}

/// The salt text found in a binary's bytes.
pub open spec fn spec_detect_salt(buffer: Seq<u8>) -> Option<Seq<char>> {
    match spec_find_salt(buffer) {
        Some((s, e)) => Some(spec_ascii_text(buffer, s, e)),
        None => None,
    }
}

proof fn lemma_salt_bounds(buffer: Seq<u8>, prefix: Seq<u8>, digits: nat, tail: bool, start: nat)
    requires
        spec_salt_at(buffer, prefix, digits, tail, start) is Some,
    ensures
        start + prefix.len() <= spec_salt_at(buffer, prefix, digits, tail, start)->0 <= buffer.len(),
        forall|k: int| start + prefix.len() <= k < spec_salt_at(buffer, prefix, digits, tail, start)->0
            ==> buffer[k] == 45u8 || spec_is_digit(#[trigger] buffer[k]),
{
    let cursor = start + prefix.len();
    if tail {
        let dash = cursor + digits;
        lemma_digit_run(buffer, dash + 1);
        assert forall|k: int| cursor <= k < spec_salt_at(buffer, prefix, digits, tail, start)->0
            implies buffer[k] == 45u8 || spec_is_digit(#[trigger] buffer[k]) by {
            if k < dash {
                assert(buffer[cursor + (k - cursor)] == buffer[k]);
            }
        }
    } else {
        assert forall|k: int| cursor <= k < spec_salt_at(buffer, prefix, digits, tail, start)->0
            implies buffer[k] == 45u8 || spec_is_digit(#[trigger] buffer[k]) by {
            assert(buffer[cursor + (k - cursor)] == buffer[k]);
        }
    }
}

proof fn lemma_digit_run(buffer: Seq<u8>, cursor: nat)
    requires
        cursor <= buffer.len(),
    ensures
        cursor <= spec_digit_run_end(buffer, cursor) <= buffer.len(),
        forall|k: int| cursor <= k < spec_digit_run_end(buffer, cursor) ==> spec_is_digit(#[trigger] buffer[k]),
    decreases buffer.len() - cursor,
{
    if cursor < buffer.len() && spec_is_digit(buffer[cursor as int]) {
        lemma_digit_run(buffer, cursor + 1);
    }
}

proof fn lemma_first_salt_bounds(buffer: Seq<u8>, prefix: Seq<u8>, digits: nat, tail: bool, start: nat)
    requires
        spec_first_salt_from(buffer, prefix, digits, tail, start) is Some,
    ensures
        ({
            let (s, e) = spec_first_salt_from(buffer, prefix, digits, tail, start)->0;
            &&& s + prefix.len() <= e <= buffer.len()
            &&& buffer.subrange(s as int, (s + prefix.len()) as int) == prefix
            &&& forall|k: int| s + prefix.len() <= k < e ==> buffer[k] == 45u8 || spec_is_digit(#[trigger] buffer[k])
        }),
    decreases spec_search_limit(buffer, prefix) - start,
{
    match spec_salt_at(buffer, prefix, digits, tail, start) {
        Some(end) => {
            lemma_salt_bounds(buffer, prefix, digits, tail, start);
        },
        None => {
            lemma_first_salt_bounds(buffer, prefix, digits, tail, start + 1);
        },
    }
}

proof fn lemma_found_salt_ascii(b: Seq<u8>)
    ensures
        spec_find_salt(b) matches Some((s, e)) ==> s <= e <= b.len() && forall|k: int|
            s <= k < e ==> (#[trigger] b[k]) < 128,
{
    let f = spec_find_prefixed_digits(b, spec_friend_prefix(), 4, true);
    let c = spec_find_prefixed_digits(b, spec_ccbf_prefix(), 10, false);
    let l = spec_find_prefixed_digits(b, spec_lab_prefix(), 11, false);
    let (p, m) = if f is Some {
        (spec_friend_prefix(), f)
    } else if c is Some {
        (spec_ccbf_prefix(), c)
    } else {
        (spec_lab_prefix(), l)
    };
    if m is Some {
        if f is Some {
            lemma_first_salt_bounds(b, spec_friend_prefix(), 4, true, 0);
        } else if c is Some {
            lemma_first_salt_bounds(b, spec_ccbf_prefix(), 10, false, 0);
        } else {
            lemma_first_salt_bounds(b, spec_lab_prefix(), 11, false, 0);
        }
        let (s, e) = m->0;
        assert forall|k: int| s <= k < e implies (#[trigger] b[k]) < 128 by {
            if k < s + p.len() {
                assert(b.subrange(s as int, (s + p.len()) as int)[k - s] == p[k - s]);
            }
        }
    }
}

/// Finds the salt in a binary's bytes: its start and end.
pub fn find_salt(buffer: &[u8]) -> (r: Option<(usize, usize)>)
    ensures
        match spec_find_salt(buffer@) {
            Some((s, e)) => r == Some((s as usize, e as usize)) && s <= e <= buffer@.len()
                && forall|k: int| s <= k < e ==> (#[trigger] buffer@[k]) < 128,
            None => r is None,
        },
        r matches Some((a, b)) ==> a <= b <= buffer@.len(),
{
    let r = match find_friend_salt(buffer) {
        Some(m) => Some(m),
        None => match find_ccbf_salt(buffer) {
            Some(m) => Some(m),
            None => find_lab_salt(buffer),
        },
    };
    proof {
        lemma_found_salt_ascii(buffer@);
        assert(buffer@.len() == buffer.len());
    }
    r
}

fn ascii_text(buffer: &[u8], start: usize, end: usize) -> (r: String)
    requires
        start <= end <= buffer@.len(),
    ensures
        r@ == spec_ascii_text(buffer@, start as nat, end as nat),
{
    let mut out: Vec<char> = Vec::new();
    let mut k: usize = start;
    while k < end
        invariant
            start <= k <= end,
            end <= buffer@.len(),
            out@ == buffer@.subrange(start as int, k as int).map_values(|b: u8| b as char),
        decreases end - k,
    {
        out.push(buffer[k] as char);
        k = k + 1;
        assert(out@ =~= buffer@.subrange(start as int, k as int).map_values(|b: u8| b as char));
    }
    string_of(out.as_slice())
}

/// Finds the salt in a binary that was read: its text, its length and the
/// binary's path; `None` when no binary was read or none of the three salt
/// shapes occurs in it.
pub fn detect_binary_salt(binary: &Option<BinaryFile>) -> (r: Option<DetectedSalt>)
    ensures
        binary is None ==> r is None,
        binary matches Some(b) ==> match spec_find_salt(b.contents@) {
            None => r is None,
            Some((s, e)) => r matches Some(d) && d.salt@ == spec_ascii_text(b.contents@, s, e)
                && d.length == e - s && d.file_path@ == b.path@,
        },
{
    match binary {
        None => None,
        Some(b) => match find_salt(b.contents.as_slice()) {
            None => None,
            Some((start, end)) => {
                proof {
                    let (s, e) = spec_find_salt(b.contents@)->0;
                    assert(b.contents@.len() == b.contents.len());
                    assert(start as nat == s && end as nat == e);
                }
                Some(
                    DetectedSalt {
                        salt: ascii_text(b.contents.as_slice(), start, end),
                        length: end - start,
                        file_path: b.path.clone(),
                    },
                )
            },
        },
    }
}

/// The positions from `p` on at which `needle` occurs in `buffer`, ascending
/// (occurrences may overlap; an empty needle occurs at every position up to
/// and including the end).
pub open spec fn spec_offsets_from(buffer: Seq<u8>, needle: Seq<u8>, p: nat) -> Seq<nat>
    decreases buffer.len() + 1 - p,
{
    if p + needle.len() > buffer.len() {
        Seq::empty()
    } else if buffer.subrange(p as int, (p + needle.len()) as int) == needle {
        seq![p] + spec_offsets_from(buffer, needle, p + 1)
    } else {
        spec_offsets_from(buffer, needle, p + 1)
    }
}

/// Every position at which `needle` occurs in `buffer`, ascending.
pub open spec fn spec_offsets(buffer: Seq<u8>, needle: Seq<u8>) -> Seq<nat> {
    spec_offsets_from(buffer, needle, 0)
}

/// Finds every position at which `needle` occurs in `buffer`, ascending.
pub fn find_all_offsets(buffer: &[u8], needle: &[u8]) -> (r: Vec<usize>)
    ensures
        r@.map_values(|x: usize| x as nat) == spec_offsets(buffer@, needle@),
{
    let mut offsets: Vec<usize> = Vec::new();
    if needle.len() > buffer.len() {
        assert(offsets@.map_values(|x: usize| x as nat) =~= spec_offsets(buffer@, needle@));
        return offsets;
    }
    let last = buffer.len() - needle.len();
    let mut position: usize = 0;
    while position <= last
        invariant
            last + needle@.len() == buffer@.len(),
            position <= last + 1,
            offsets@.map_values(|x: usize| x as nat) + spec_offsets_from(
                buffer@,
                needle@,
                position as nat,
            ) == spec_offsets(buffer@, needle@),
        decreases last + 1 - position,
    {
        let ghost before = offsets@;
        if bytes_equal_at(buffer, position, needle) {
            offsets.push(position);
            assert(offsets@.map_values(|x: usize| x as nat) =~= before.map_values(|x: usize| x as nat)
                + seq![position as nat]);
        }
        assert(offsets@.map_values(|x: usize| x as nat) + spec_offsets_from(buffer@, needle@, (position + 1) as nat)
            =~= before.map_values(|x: usize| x as nat) + spec_offsets_from(buffer@, needle@, position as nat));
        if position == last {
            assert(spec_offsets_from(buffer@, needle@, (position + 1) as nat) =~= Seq::<nat>::empty());
            assert(offsets@.map_values(|x: usize| x as nat) =~= spec_offsets(buffer@, needle@));
            return offsets;
        }
        position = position + 1;
    }
    offsets
}

proof fn lemma_offsets_in_bounds(buffer: Seq<u8>, needle: Seq<u8>, p: nat)
    ensures
        forall|i: int|
            0 <= i < spec_offsets_from(buffer, needle, p).len() ==> p <= #[trigger] spec_offsets_from(buffer, needle, p)[i]
                && spec_offsets_from(buffer, needle, p)[i] + needle.len() <= buffer.len()
                && buffer.subrange(spec_offsets_from(buffer, needle, p)[i] as int,
                    (spec_offsets_from(buffer, needle, p)[i] + needle.len()) as int) == needle,
    decreases buffer.len() + 1 - p,
{
    if p + needle.len() <= buffer.len() {
        lemma_offsets_in_bounds(buffer, needle, p + 1);
        let rest = spec_offsets_from(buffer, needle, p + 1);
        let all = spec_offsets_from(buffer, needle, p);
        if buffer.subrange(p as int, (p + needle.len()) as int) == needle {
            assert forall|i: int| 0 < i < all.len() implies all[i] == rest[i - 1] by {}
        }
    }
}

/// `buffer` with `rep` written over it from `off` on.
pub open spec fn spec_overwrite(buffer: Seq<u8>, off: nat, rep: Seq<u8>) -> Seq<u8> {
    buffer.subrange(0, off as int) + rep + buffer.subrange((off + rep.len()) as int, buffer.len() as int)
}

/// `buffer` with `rep` written over it at the first `i` offsets, in order.
pub open spec fn spec_patch_prefix(buffer: Seq<u8>, offsets: Seq<nat>, rep: Seq<u8>, i: nat) -> Seq<u8>
    decreases i,
{
    if i == 0 || i > offsets.len() {
        buffer
    } else {
        spec_overwrite(spec_patch_prefix(buffer, offsets, rep, (i - 1) as nat), offsets[i - 1], rep)
    }
}

/// `buffer` with `rep` written over it at every offset, in order.
pub open spec fn spec_patch(buffer: Seq<u8>, offsets: Seq<nat>, rep: Seq<u8>) -> Seq<u8> {
    spec_patch_prefix(buffer, offsets, rep, offsets.len())
}

fn overwrite(buffer: &mut Vec<u8>, off: usize, rep: &[u8])
    requires
        off + rep@.len() <= old(buffer).len(),
    ensures
        final(buffer)@ == spec_overwrite(old(buffer)@, off as nat, rep@),
{
    let mut k: usize = 0;
    while k < rep.len()
        invariant
            k <= rep@.len(),
            off + rep@.len() <= old(buffer).len(),
            buffer@.len() == old(buffer)@.len(),
            buffer@ == old(buffer)@.subrange(0, off as int) + rep@.subrange(0, k as int)
                + old(buffer)@.subrange(off + k, old(buffer)@.len() as int),
        decreases rep.len() - k,
    {
        buffer.set(off + k, rep[k]);
        k = k + 1;
        assert(buffer@ =~= old(buffer)@.subrange(0, off as int) + rep@.subrange(0, k as int)
            + old(buffer)@.subrange(off + k, old(buffer)@.len() as int));
    }
    assert(buffer@ =~= spec_overwrite(old(buffer)@, off as nat, rep@));
}

/// Writes `rep` over `buffer` at each offset, in order.
pub fn patch_offsets(buffer: &mut Vec<u8>, offsets: &Vec<usize>, rep: &[u8])
    requires
        forall|i: int| 0 <= i < offsets@.len() ==> #[trigger] offsets@[i] + rep@.len() <= old(buffer)@.len(),
    ensures
        final(buffer)@ == spec_patch(old(buffer)@, offsets@.map_values(|x: usize| x as nat), rep@),
        final(buffer)@.len() == old(buffer)@.len(),
{
    let ghost offs = offsets@.map_values(|x: usize| x as nat);
    let mut i: usize = 0;
    while i < offsets.len()
        invariant
            i <= offsets@.len(),
            offs == offsets@.map_values(|x: usize| x as nat),
            buffer@.len() == old(buffer)@.len(),
            forall|j: int| 0 <= j < offsets@.len() ==> #[trigger] offsets@[j] + rep@.len() <= old(buffer)@.len(),
            buffer@ == spec_patch_prefix(old(buffer)@, offs, rep@, i as nat),
        decreases offsets.len() - i,
    {
        let off = offsets[i];
        overwrite(buffer, off, rep);
        i = i + 1;
    }
}

/// The message for salts of different lengths.
pub open spec fn spec_length_mismatch(search: Seq<char>, new: Seq<char>) -> Seq<char> {
    "Salt length mismatch: \""@ + search + "\" is "@ + spec_decimal(spec_byte_len(search))
        + ", \""@ + new + "\" is "@ + spec_decimal(spec_byte_len(new)) + "."@
}

/// The message for a salt that does not occur in the binary.
pub open spec fn spec_salt_not_found(search: Seq<char>) -> Seq<char> {
    "Could not find \""@ + search + "\" in binary bytes."@
}

/// The bytes of a binary with `search` replaced by `new` wherever it occurs,
/// and the number of occurrences; an error when the salts differ in length,
/// when the binary could not be read, or when `search` does not occur.
pub open spec fn spec_replace_salt(search: Seq<char>, new: Seq<char>, contents: Result<Seq<u8>, Seq<char>>) -> Result<
    (Seq<u8>, nat),
    Seq<char>,
> {
    if spec_byte_len(search) != spec_byte_len(new) {
        Err(spec_length_mismatch(search, new))
    } else {
        match contents {
            Err(e) => Err(e),
            Ok(buffer) => {
                let offs = spec_offsets(buffer, vstd::utf8::encode_utf8(search));
                if offs.len() == 0 {
                    Err(spec_salt_not_found(search))
                } else {
                    Ok((spec_patch(buffer, offs, vstd::utf8::encode_utf8(new)), offs.len()))
                }
            },
        }
    }
}

/// The result of reading a binary, with its bytes seen as a sequence.
pub open spec fn spec_read_view(contents: Result<Vec<u8>, String>) -> Result<Seq<u8>, Seq<char>> {
    match contents {
        Ok(v) => Ok(v@),
        Err(e) => Err(e@),
    }
}

/// Replaces the salt `search_salt` by `new_salt` in a binary's bytes, given the
/// outcome of reading the binary: the new bytes and the number of places patched.
fn replace_in_contents(search_salt: &str, new_salt: &str, contents: Result<Vec<u8>, String>) -> (r: Result<
    (Vec<u8>, usize),
    String,
>)
    ensures
        match spec_replace_salt(search_salt@, new_salt@, spec_read_view(contents)) {
            Ok((bytes, count)) => r matches Ok((v, n)) && v@ == bytes && n == count,
            Err(e) => r matches Err(m) && m@ == e,
        },
{
    let slen = crate::search::byte_len(search_salt);
    let nlen = crate::search::byte_len(new_salt);
    if slen != nlen {
        let mut out: Vec<char> = Vec::new();
        push_str(&mut out, "Salt length mismatch: \"");
        push_str(&mut out, search_salt);
        push_str(&mut out, "\" is ");
        push_decimal(&mut out, slen as u64);
        push_str(&mut out, ", \"");
        push_str(&mut out, new_salt);
        push_str(&mut out, "\" is ");
        push_decimal(&mut out, nlen as u64);
        push_str(&mut out, ".");
        assert(out@ =~= spec_length_mismatch(search_salt@, new_salt@));
        return Err(string_of(out.as_slice()));
    }
    let mut buffer = match contents {
        Ok(b) => b,
        Err(e) => return Err(e),
    };
    let search_bytes = search_salt.as_bytes();
    let replace_bytes = new_salt.as_bytes();
    assert(search_bytes@.len() == search_bytes.len() && replace_bytes@.len() == replace_bytes.len());
    assert(search_bytes@.len() == replace_bytes@.len());
    let offsets = find_all_offsets(buffer.as_slice(), search_bytes);
    if offsets.len() == 0 {
        let mut out: Vec<char> = Vec::new();
        push_str(&mut out, "Could not find \"");
        push_str(&mut out, search_salt);
        push_str(&mut out, "\" in binary bytes.");
        assert(out@ =~= spec_salt_not_found(search_salt@));
        return Err(string_of(out.as_slice()));
    }
    proof {
        lemma_offsets_in_bounds(buffer@, search_bytes@, 0);
        assert forall|i: int| 0 <= i < offsets@.len() implies #[trigger] offsets@[i] + replace_bytes@.len()
            <= buffer@.len() by {
            assert(offsets@.map_values(|x: usize| x as nat)[i] == offsets@[i] as nat);
        }
    }
    patch_offsets(&mut buffer, &offsets, replace_bytes);
    let count = offsets.len();
    Ok((buffer, count))
}

/// What looking for a binary's file gave: no file there, a file that could
/// not be read (the error's text), or its bytes.
#[derive(Clone, Debug, PartialEq, Eq)]
pub enum BinaryRead {
    Missing,
    Failed(String),
    Read(Vec<u8>),
}

/// The message for a binary file that is not there, for the program run as
/// `command` and named `product`.
pub open spec fn spec_missing_binary(command: Seq<char>, product: Seq<char>) -> Seq<char> {
    "Could not find "@ + command + " binary. Use a valid binary path or install "@ + product
        + " first."@
}

/// The message for a binary file that is not there.
pub fn missing_binary_message(command: &str, product: &str) -> (r: String)
    ensures
        r@ == spec_missing_binary(command@, product@),
{
    let mut out: Vec<char> = Vec::new();
    push_str(&mut out, "Could not find ");
    push_str(&mut out, command);
    push_str(&mut out, " binary. Use a valid binary path or install ");
    push_str(&mut out, product);
    push_str(&mut out, " first.");
    string_of(out.as_slice())
}

/// The outcome of replacing `search` by `new` in a binary's file: a missing
/// file is reported first, then salts of different lengths, then a failed
/// read; otherwise as `spec_replace_salt` on the bytes.
pub open spec fn spec_replace_in_file(
    search: Seq<char>,
    new: Seq<char>,
    file: BinaryRead,
    command: Seq<char>,
    product: Seq<char>,
) -> Result<(Seq<u8>, nat), Seq<char>> {
    match file {
        BinaryRead::Missing => Err(spec_missing_binary(command, product)),
        BinaryRead::Failed(e) => spec_replace_salt(search, new, Err(e@)),
        BinaryRead::Read(b) => spec_replace_salt(search, new, Ok(b@)),
    }
}

/// Replaces the salt `search_salt` by `new_salt` in the binary of the program
/// run as `command` and named `product`, given what looking for its file
/// gave: the new bytes and the number of places patched.
pub fn replace_salt_in_binary(
    search_salt: &str,
    new_salt: &str,
    file: BinaryRead,
    command: &str,
    product: &str,
) -> (r: Result<(Vec<u8>, usize), String>)
    ensures
        match spec_replace_in_file(search_salt@, new_salt@, file, command@, product@) {
            Ok((bytes, count)) => r matches Ok((v, n)) && v@ == bytes && n == count,
            Err(e) => r matches Err(m) && m@ == e,
        },
{
    match file {
        BinaryRead::Missing => Err(missing_binary_message(command, product)),
        BinaryRead::Failed(e) => replace_in_contents(search_salt, new_salt, Err(e)),
        BinaryRead::Read(b) => replace_in_contents(search_salt, new_salt, Ok(b)),
    }
}

/// The message when no salt is found in the binary of the program named `product`.
pub open spec fn spec_undetected(product: Seq<char>) -> Seq<char> {
    "Could not detect the current salt in the "@ + product + " binary."@
}

fn undetected(product: &str) -> (r: String)
    ensures
        r@ == spec_undetected(product@),
{
    let mut out: Vec<char> = Vec::new();
    push_str(&mut out, "Could not detect the current salt in the ");
    push_str(&mut out, product);
    push_str(&mut out, " binary.");
    string_of(out.as_slice())
}

/// The outcome of writing `new` into a binary of the program named `product`
/// that was read (`None` when none was): the salt found in it is replaced
/// everywhere by `new`.
pub open spec fn spec_apply(new: Seq<char>, binary: Option<BinaryFile>, product: Seq<char>) -> Result<
    (Seq<char>, nat, Seq<char>, Seq<u8>),
    Seq<char>,
> {
    match binary {
        None => Err(spec_undetected(product)),
        Some(b) => match spec_detect_salt(b.contents@) {
            None => Err(spec_undetected(product)),
            Some(salt) => match spec_replace_salt(salt, new, Ok(b.contents@)) {
                Err(e) => Err(e),
                Ok((bytes, count)) => Ok((b.path@, count, salt, bytes)),
            },
        },
    }
}

proof fn lemma_ascii_bytes_encode(bs: Seq<u8>)
    requires
        forall|k: int| 0 <= k < bs.len() ==> (#[trigger] bs[k]) < 128,
    ensures
        vstd::utf8::encode_utf8(bs.map_values(|b: u8| b as char)) == bs,
{
    let cs = bs.map_values(|b: u8| b as char);
    assert forall|i: int| 0 <= i < cs.len() implies '\0' <= #[trigger] cs[i] <= '\u{7f}' by {
        assert(cs[i] == bs[i] as char);
    }
    vstd::utf8::is_ascii_chars_encode_utf8(cs);
    let enc = vstd::utf8::encode_utf8(cs);
    assert forall|i: int| 0 <= i < bs.len() implies #[trigger] enc[i] == bs[i] by {
        assert(cs[i] == bs[i] as char);
        assert(cs[i] as u8 == enc[i]);
    }
    assert(enc =~= bs);
}

proof fn lemma_detected_found_again(bytes: Seq<u8>)
    ensures
        spec_detect_salt(bytes) matches Some(salt) ==> spec_offsets(
            bytes,
            vstd::utf8::encode_utf8(salt),
        ).len() > 0,
{
    lemma_found_salt_ascii(bytes);
    if spec_find_salt(bytes) is Some {
        let (s, e) = spec_find_salt(bytes)->0;
        let sub = bytes.subrange(s as int, e as int);
        assert forall|k: int| 0 <= k < sub.len() implies (#[trigger] sub[k]) < 128 by {
            assert(sub[k] == bytes[s + k]);
        }
        lemma_ascii_bytes_encode(sub);
        lemma_offsets_exact(bytes, sub);
        assert(spec_offsets(bytes, sub).contains(s));
    }
}

/// A salt that detection finds is found again when it is replaced: writing a
/// new salt into a binary succeeds exactly when a salt is detected in it and
/// the new salt has the detected salt's length in bytes, and then at least
/// one place is patched.
pub proof fn lemma_apply_succeeds(new: Seq<char>, b: BinaryFile, product: Seq<char>)
    ensures
        spec_apply(new, Some(b), product) is Ok <==> (spec_detect_salt(b.contents@) is Some
            && spec_byte_len(new) == spec_byte_len(spec_detect_salt(b.contents@)->0)),
        spec_apply(new, Some(b), product) is Ok ==> spec_apply(new, Some(b), product)->Ok_0.1 >= 1,
{
    lemma_detected_found_again(b.contents@);
}

/// Restoring succeeds exactly when a salt is detected in the binary and it is
/// the original salt already (nothing is written) or has the original salt's
/// length in bytes (then at least one place is patched).
pub proof fn lemma_restore_succeeds(original: Seq<char>, b: BinaryFile, product: Seq<char>)
    ensures
        spec_restore(original, Some(b), product) is Ok <==> (spec_detect_salt(b.contents@) is Some && (
        spec_detect_salt(b.contents@)->0 == original || spec_byte_len(original) == spec_byte_len(
            spec_detect_salt(b.contents@)->0,
        ))),
        spec_restore(original, Some(b), product) matches Ok((_, count, previous, bytes)) ==> (bytes is None
            <==> previous == original) && (bytes is Some ==> count >= 1),
{
    lemma_detected_found_again(b.contents@);
}

/// Writes a new salt into a binary that was read: the outcome and the bytes
/// to write back.
pub fn apply_binary(new_salt: &str, binary: Option<BinaryFile>, product: &str) -> (r: Result<
    (ApplyResult, Vec<u8>),
    String,
>)
    ensures
        match spec_apply(new_salt@, binary, product@) {
            Err(e) => r matches Err(m) && m@ == e,
            Ok((path, count, old_salt, bytes)) => r matches Ok((res, v)) && res.file_path@ == path
                && res.patch_count == count && res.old_salt@ == old_salt && res.new_salt@
                == new_salt@ && v@ == bytes,
        },
{
    let detected = detect_binary_salt(&binary);
    let b = match binary {
        Some(b) => b,
        None => return Err(undetected(product)),
    };
    let d = match detected {
        Some(d) => d,
        None => return Err(undetected(product)),
    };
    match replace_in_contents(d.salt.as_str(), new_salt, Ok(b.contents)) {
        Err(e) => Err(e),
        Ok((bytes, count)) => Ok(
            (
                ApplyResult {
                    file_path: d.file_path,
                    patch_count: count,
                    old_salt: d.salt,
                    new_salt: new_salt.to_owned(),
                },
                bytes,
            ),
        ),
    }
}

/// The outcome of writing the original salt back into a binary of the program
/// named `product` that was read: nothing to write when the binary already
/// holds it; otherwise the salt found is replaced everywhere by the original.
pub open spec fn spec_restore(original: Seq<char>, binary: Option<BinaryFile>, product: Seq<char>) -> Result<
    (Seq<char>, nat, Seq<char>, Option<Seq<u8>>),
    Seq<char>,
> {
    match binary {
        None => Err(spec_undetected(product)),
        Some(b) => match spec_detect_salt(b.contents@) {
            None => Err(spec_undetected(product)),
            Some(salt) => if salt == original {
                Ok((b.path@, 0, salt, None))
            } else {
                match spec_replace_salt(salt, original, Ok(b.contents@)) {
                    Err(e) => Err(e),
                    Ok((bytes, count)) => Ok((b.path@, count, salt, Some(bytes))),
                }
            },
        },
    }
}

/// Writes the original salt back into a binary that was read: the outcome and
/// the bytes to write back, if any.
pub fn restore_binary(original_salt: &str, binary: Option<BinaryFile>, product: &str) -> (r: Result<
    (RestoreResult, Option<Vec<u8>>),
    String,
>)
    ensures
        match spec_restore(original_salt@, binary, product@) {
            Err(e) => r matches Err(m) && m@ == e,
            Ok((path, count, previous, bytes)) => r matches Ok((res, v)) && res.file_path@ == path
                && res.patch_count == count && res.previous_salt@ == previous
                && res.restored_salt@ == original_salt@ && match bytes {
                None => v is None,
                Some(bs) => v matches Some(x) && x@ == bs,
            },
        },
{
    let detected = detect_binary_salt(&binary);
    let b = match binary {
        Some(b) => b,
        None => return Err(undetected(product)),
    };
    let d = match detected {
        Some(d) => d,
        None => return Err(undetected(product)),
    };
    if str_eq(d.salt.as_str(), original_salt) {
        return Ok(
            (
                RestoreResult {
                    file_path: d.file_path,
                    patch_count: 0,
                    previous_salt: d.salt,
                    restored_salt: original_salt.to_owned(),
                },
                None,
            ),
        );
    }
    match replace_in_contents(d.salt.as_str(), original_salt, Ok(b.contents)) {
        Err(e) => Err(e),
        Ok((bytes, count)) => Ok(
            (
                RestoreResult {
                    file_path: d.file_path,
                    patch_count: count,
                    previous_salt: d.salt,
                    restored_salt: original_salt.to_owned(),
                },
                Some(bytes),
            ),
        ),
    }
}

proof fn lemma_offsets_from_facts(buffer: Seq<u8>, needle: Seq<u8>, p: nat)
    ensures
        forall|k: nat|
            (#[trigger] spec_offsets_from(buffer, needle, p).contains(k)) <==> (p <= k && k + needle.len()
                <= buffer.len() && buffer.subrange(k as int, (k + needle.len()) as int) == needle),
        forall|i: int, j: int|
            0 <= i < j < spec_offsets_from(buffer, needle, p).len() ==> #[trigger] spec_offsets_from(
                buffer,
                needle,
                p,
            )[i] < #[trigger] spec_offsets_from(buffer, needle, p)[j],
        forall|i: int|
            0 <= i < spec_offsets_from(buffer, needle, p).len() ==> p <= #[trigger] spec_offsets_from(
                buffer,
                needle,
                p,
            )[i],
    decreases buffer.len() + 1 - p,
{
    let all = spec_offsets_from(buffer, needle, p);
    if p + needle.len() <= buffer.len() {
        lemma_offsets_from_facts(buffer, needle, p + 1);
        let rest = spec_offsets_from(buffer, needle, p + 1);
        if buffer.subrange(p as int, (p + needle.len()) as int) == needle {
            assert(all == seq![p] + rest);
            assert forall|k: nat| #[trigger] all.contains(k) <==> (p <= k && k + needle.len() <= buffer.len()
                && buffer.subrange(k as int, (k + needle.len()) as int) == needle) by {
                if k == p {
                    assert(all[0] == p);
                } else if all.contains(k) {
                    let i = choose|i: int| 0 <= i < all.len() && all[i] == k;
                    assert(rest[i - 1] == k);
                    assert(rest.contains(k));
                } else if p < k && k + needle.len() <= buffer.len() && buffer.subrange(k as int, (k + needle.len()) as int) == needle {
                    assert(rest.contains(k));
                    let i = choose|i: int| 0 <= i < rest.len() && rest[i] == k;
                    assert(all[i + 1] == rest[i]);
                    assert(all[i + 1] == k);
                }
            }
            assert forall|i: int, j: int| 0 <= i < j < all.len() implies #[trigger] all[i] < #[trigger] all[j] by {
                if i > 0 {
                    assert(all[i] == rest[i - 1] && all[j] == rest[j - 1]);
                } else {
                    assert(all[j] == rest[j - 1]);
                }
            }
            assert forall|i: int| 0 <= i < all.len() implies p <= #[trigger] all[i] by {
                if i > 0 {
                    assert(all[i] == rest[i - 1]);
                }
            }
        } else {
            assert forall|k: nat| #[trigger] all.contains(k) <==> (p <= k && k + needle.len() <= buffer.len()
                && buffer.subrange(k as int, (k + needle.len()) as int) == needle) by {
                if k == p {
                    if all.contains(k) {
                        let i = choose|i: int| 0 <= i < all.len() && all[i] == k;
                    }
                }
            }
        }
    } else {
        assert forall|k: nat| #[trigger] all.contains(k) <==> (p <= k && k + needle.len() <= buffer.len()
            && buffer.subrange(k as int, (k + needle.len()) as int) == needle) by {}
    }
}

/// The offsets found are exactly the positions at which the needle occurs,
/// in strictly ascending order.
pub proof fn lemma_offsets_exact(buffer: Seq<u8>, needle: Seq<u8>)
    ensures
        forall|k: nat|
            (#[trigger] spec_offsets(buffer, needle).contains(k)) <==> (k + needle.len() <= buffer.len()
                && buffer.subrange(k as int, (k + needle.len()) as int) == needle),
        forall|i: int, j: int|
            0 <= i < j < spec_offsets(buffer, needle).len() ==> #[trigger] spec_offsets(buffer, needle)[i]
                < #[trigger] spec_offsets(buffer, needle)[j],
{
    lemma_offsets_from_facts(buffer, needle, 0);
}

/// Windows of width `w` at the offsets lie within `len` bytes and do not overlap.
pub open spec fn spec_disjoint_windows(offsets: Seq<nat>, w: nat, len: nat) -> bool {
    &&& forall|i: int| 0 <= i < offsets.len() ==> #[trigger] offsets[i] + w <= len
    &&& forall|i: int, j: int| 0 <= i < j < offsets.len() ==> #[trigger] offsets[i] + w <= #[trigger] offsets[j]
}

/// The position `k` lies in none of the windows of width `w` at the offsets.
pub open spec fn spec_outside_windows(offsets: Seq<nat>, w: nat, k: int) -> bool {
    forall|i: int| 0 <= i < offsets.len() ==> !(#[trigger] offsets[i] <= k < offsets[i] + w)
}

proof fn lemma_patch_prefix_pointwise(buffer: Seq<u8>, offsets: Seq<nat>, rep: Seq<u8>, n: nat)
    requires
        n <= offsets.len(),
        spec_disjoint_windows(offsets, rep.len(), buffer.len()),
    ensures
        spec_patch_prefix(buffer, offsets, rep, n).len() == buffer.len(),
        forall|i: int, j: int|
            0 <= i < n && 0 <= j < rep.len() ==> spec_patch_prefix(buffer, offsets, rep, n)[#[trigger] offsets[i]
                + j] == #[trigger] rep[j],
        forall|k: int|
            0 <= k < buffer.len() && spec_outside_windows(offsets.subrange(0, n as int), rep.len(), k)
                ==> #[trigger] spec_patch_prefix(buffer, offsets, rep, n)[k] == buffer[k],
    decreases n,
{
    if n > 0 {
        lemma_patch_prefix_pointwise(buffer, offsets, rep, (n - 1) as nat);
        let prev = spec_patch_prefix(buffer, offsets, rep, (n - 1) as nat);
        let cur = spec_patch_prefix(buffer, offsets, rep, n);
        let o = offsets[n - 1];
        assert(cur == spec_overwrite(prev, o, rep));
        assert forall|i: int, j: int| 0 <= i < n && 0 <= j < rep.len() implies cur[#[trigger] offsets[i] + j]
            == #[trigger] rep[j] by {
            if i < n - 1 {
                assert(offsets[i] + rep.len() <= offsets[n - 1]);
                assert(prev[offsets[i] + j] == rep[j]);
            }
        }
        assert forall|k: int| 0 <= k < buffer.len() && spec_outside_windows(offsets.subrange(0, n as int), rep.len(), k)
            implies #[trigger] cur[k] == buffer[k] by {
            assert(offsets.subrange(0, n as int)[n - 1] == o);
            assert forall|i: int| 0 <= i < n - 1 implies !(#[trigger] offsets.subrange(0, (n - 1) as int)[i] <= k
                < offsets.subrange(0, (n - 1) as int)[i] + rep.len()) by {
                assert(offsets.subrange(0, n as int)[i] == offsets[i]);
            }
            assert(spec_outside_windows(offsets.subrange(0, (n - 1) as int), rep.len(), k));
        }
    }
}

/// Writing `rep` at offsets whose windows do not overlap puts `rep` in every
/// window and leaves every byte outside the windows as it was; the length is
/// kept.
pub proof fn lemma_patch_pointwise(buffer: Seq<u8>, offsets: Seq<nat>, rep: Seq<u8>)
    requires
        spec_disjoint_windows(offsets, rep.len(), buffer.len()),
    ensures
        spec_patch(buffer, offsets, rep).len() == buffer.len(),
        forall|i: int, j: int|
            0 <= i < offsets.len() && 0 <= j < rep.len() ==> spec_patch(buffer, offsets, rep)[#[trigger] offsets[i]
                + j] == #[trigger] rep[j],
        forall|k: int|
            0 <= k < buffer.len() && spec_outside_windows(offsets, rep.len(), k)
                ==> #[trigger] spec_patch(buffer, offsets, rep)[k] == buffer[k],
{
    lemma_patch_prefix_pointwise(buffer, offsets, rep, offsets.len());
    assert(offsets.subrange(0, offsets.len() as int) =~= offsets);
}

/// Patching back undoes patching: when `search` occurs at non-overlapping
/// offsets and, after writing `new` there, `new` occurs exactly at those
/// offsets, writing `search` back at them gives the original bytes.
pub proof fn lemma_patch_round_trip(buffer: Seq<u8>, search: Seq<u8>, new: Seq<u8>)
    requires
        search.len() == new.len(),
        spec_disjoint_windows(spec_offsets(buffer, search), search.len(), buffer.len()),
        spec_offsets(spec_patch(buffer, spec_offsets(buffer, search), new), new) == spec_offsets(buffer, search),
    ensures
        spec_patch(
            spec_patch(buffer, spec_offsets(buffer, search), new),
            spec_offsets(spec_patch(buffer, spec_offsets(buffer, search), new), new),
            search,
        ) == buffer,
{
    let offs = spec_offsets(buffer, search);
    let once = spec_patch(buffer, offs, new);
    lemma_patch_pointwise(buffer, offs, new);
    lemma_patch_pointwise(once, offs, search);
    let twice = spec_patch(once, offs, search);
    lemma_offsets_exact(buffer, search);
    assert forall|k: int| 0 <= k < buffer.len() implies twice[k] == buffer[k] by {
        if spec_outside_windows(offs, search.len(), k) {
            assert(twice[k] == once[k]);
            assert(once[k] == buffer[k]);
        } else {
            let i = choose|i: int| 0 <= i < offs.len() && #[trigger] offs[i] <= k < offs[i] + search.len();
            let j = k - offs[i];
            assert(twice[offs[i] + j] == search[j]);
            assert(offs.contains(offs[i]));
            assert(buffer.subrange(offs[i] as int, (offs[i] + search.len()) as int) == search);
            assert(buffer.subrange(offs[i] as int, (offs[i] + search.len()) as int)[j] == buffer[k]);
        }
    }
    assert(twice =~= buffer);
}

/// Restoring undoes applying. Say writing `new` into binary `b` gives the
/// bytes `patched`, replacing the salt `old` that was found in `b`. If `old`
/// occurs in `b` at non-overlapping places, and `new` is then found as the
/// binary's salt and occurs exactly where `old` stood, then restoring `old`
/// into the patched binary patches as many places and gives back `b`'s bytes.
pub proof fn lemma_restore_undoes_apply(new: Seq<char>, b: BinaryFile, patched: BinaryFile, product: Seq<char>)
    requires
        spec_apply(new, Some(b), product) is Ok,
        patched.contents@ == spec_apply(new, Some(b), product)->Ok_0.3,
        spec_detect_salt(patched.contents@) == Some(new),
        spec_detect_salt(b.contents@)->0 != new,
        spec_disjoint_windows(
            spec_offsets(b.contents@, vstd::utf8::encode_utf8(spec_detect_salt(b.contents@)->0)),
            spec_byte_len(spec_detect_salt(b.contents@)->0),
            b.contents@.len(),
        ),
        spec_offsets(patched.contents@, vstd::utf8::encode_utf8(new)) == spec_offsets(
            b.contents@,
            vstd::utf8::encode_utf8(spec_detect_salt(b.contents@)->0),
        ),
    ensures
        ({
            let applied = spec_apply(new, Some(b), product)->Ok_0;
            spec_restore(applied.2, Some(patched), product) == Ok::<_, Seq<char>>(
                (patched.path@, applied.1, new, Some(b.contents@)),
            )
        }),
{
    let old = spec_detect_salt(b.contents@)->0;
    let enc_old = vstd::utf8::encode_utf8(old);
    let enc_new = vstd::utf8::encode_utf8(new);
    lemma_patch_round_trip(b.contents@, enc_old, enc_new);
}

/// The paths with every repeat of an earlier path removed, first ones kept, in order.
pub open spec fn spec_dedupe(paths: Seq<Seq<char>>) -> Seq<Seq<char>>
    decreases paths.len(),
{
    if paths.len() == 0 {
        Seq::empty()
    } else {
        let prev = spec_dedupe(paths.drop_last());
        if prev.contains(paths.last()) {
            prev
        } else {
            prev.push(paths.last())
        }
    }
}

proof fn lemma_dedupe_facts(paths: Seq<Seq<char>>)
    ensures
        forall|i: int, j: int|
            0 <= i < j < spec_dedupe(paths).len() ==> #[trigger] spec_dedupe(paths)[i] != #[trigger] spec_dedupe(
                paths,
            )[j],
        forall|x: Seq<char>| #[trigger] spec_dedupe(paths).contains(x) <==> paths.contains(x),
    decreases paths.len(),
{
    if paths.len() > 0 {
        let init = paths.drop_last();
        lemma_dedupe_facts(init);
        let prev = spec_dedupe(init);
        let d = spec_dedupe(paths);
        assert forall|x: Seq<char>| #[trigger] d.contains(x) <==> paths.contains(x) by {
            if paths.contains(x) {
                let k = choose|k: int| 0 <= k < paths.len() && paths[k] == x;
                if k < paths.len() - 1 {
                    assert(init[k] == x);
                    assert(init.contains(x));
                    assert(prev.contains(x));
                    if !prev.contains(paths.last()) {
                        let m = choose|m: int| 0 <= m < prev.len() && prev[m] == x;
                        assert(d[m] == x);
                    }
                } else {
                    if !prev.contains(paths.last()) {
                        assert(d[prev.len() as int] == x);
                    }
                }
            }
            if d.contains(x) {
                let m = choose|m: int| 0 <= m < d.len() && d[m] == x;
                if m < prev.len() {
                    assert(prev[m] == x);
                    assert(prev.contains(x));
                    let k = choose|k: int| 0 <= k < init.len() && init[k] == x;
                    assert(paths[k] == x);
                } else {
                    assert(paths[paths.len() - 1] == x);
                }
            }
        }
    }
}

/// Removes repeated paths, keeping the first of each, in order; the result
/// holds no path twice and holds exactly the paths given.
pub fn dedupe_paths(paths: Vec<String>) -> (r: Vec<String>)
    ensures
        crate::assets::spec_strings(r@) == spec_dedupe(crate::assets::spec_strings(paths@)),
        forall|i: int, j: int| 0 <= i < j < r@.len() ==> (#[trigger] r@[i])@ != (#[trigger] r@[j])@,
        forall|x: Seq<char>|
            crate::assets::spec_strings(r@).contains(x) <==> #[trigger] crate::assets::spec_strings(paths@).contains(x),
{
    let ghost input = paths@.map_values(|s: String| s@);
    let mut unique: Vec<String> = Vec::new();
    let mut i: usize = 0;
    assert(unique@.map_values(|s: String| s@) =~= spec_dedupe(input.subrange(0, 0)));
    while i < paths.len()
        invariant
            i <= paths@.len(),
            input == paths@.map_values(|s: String| s@),
            unique@.map_values(|s: String| s@) == spec_dedupe(input.subrange(0, i as int)),
        decreases paths.len() - i,
    {
        let ghost u = unique@.map_values(|s: String| s@);
        let mut seen = false;
        let mut k: usize = 0;
        while k < unique.len()
            invariant
                k <= unique@.len(),
                u == unique@.map_values(|s: String| s@),
                seen == exists|m: int| 0 <= m < k && u[m] == paths@[i as int]@,
                i < paths@.len(),
            decreases unique.len() - k,
        {
            assert(u[k as int] == unique@[k as int]@);
            if unique[k] == paths[i] {
                seen = true;
                assert(u[k as int] == paths@[i as int]@);
            }
            k = k + 1;
        }
        assert(input.subrange(0, i + 1).drop_last() =~= input.subrange(0, i as int));
        assert(input.subrange(0, i + 1).last() == paths@[i as int]@);
        if !seen {
            unique.push(paths[i].clone());
            assert(unique@.map_values(|s: String| s@) =~= u.push(paths@[i as int]@));
        } else {
            proof {
                let m = choose|m: int| 0 <= m < k && u[m] == paths@[i as int]@;
                assert(u.contains(paths@[i as int]@));
            }
        }
        i = i + 1;
    }
    assert(input.subrange(0, paths@.len() as int) =~= input);
    proof {
        lemma_dedupe_facts(input);
        assert forall|a: int, b: int| 0 <= a < b < unique@.len() implies (#[trigger] unique@[a])@ != (
        #[trigger] unique@[b])@ by {
            assert(unique@.map_values(|s: String| s@)[a] == unique@[a]@);
            assert(unique@.map_values(|s: String| s@)[b] == unique@[b]@);
        }
    }
    unique
}

/// The first candidate in which a salt was found.
pub open spec fn spec_first_with_salt(candidates: Seq<(String, bool)>, i: nat) -> Option<Seq<char>>
    decreases candidates.len() - i,
{
    if i >= candidates.len() {
        None
    } else if candidates[i as int].1 {
        Some(candidates[i as int].0@)
    } else {
        spec_first_with_salt(candidates, i + 1)
    }
}

/// The binary to use: the first candidate in which a salt was found, else
/// the first candidate, else none.
pub open spec fn spec_pick_binary(candidates: Seq<(String, bool)>) -> Option<Seq<char>> {
    match spec_first_with_salt(candidates, 0) {
        Some(p) => Some(p),
        None => if candidates.len() > 0 {
            Some(candidates[0].0@)
        } else {
            None
        },
    }
}

/// Chooses the binary to patch among candidates, each paired with whether a
/// salt was found in it.
pub fn find_claude_binary(candidates: &Vec<(String, bool)>) -> (r: Option<String>)
    ensures
        match spec_pick_binary(candidates@) {
            Some(p) => r matches Some(x) && x@ == p,
            None => r is None,
        },
{
    let mut i: usize = 0;
    while i < candidates.len()
        invariant
            i <= candidates@.len(),
            spec_first_with_salt(candidates@, 0) == spec_first_with_salt(candidates@, i as nat),
        decreases candidates.len() - i,
    {
        if candidates[i].1 {
            return Some(candidates[i].0.clone());
        }
        i = i + 1;
    }
    if candidates.len() > 0 {
        Some(candidates[0].0.clone())
    } else {
        None
    }
}

/// Resolves the binary to use: a path given that exists, else the choice
/// among the candidates found for it (or for the program's own command when
/// none was given).
pub fn resolve_binary_path(direct: Option<String>, candidates: &Vec<(String, bool)>) -> (r: Option<String>)
    ensures
        match direct {
            Some(d) => r == Some(d),
            None => match spec_pick_binary(candidates@) {
                Some(p) => r matches Some(x) && x@ == p,
                None => r is None,
            },
        },
{
    match direct {
        Some(d) => Some(d),
        None => find_claude_binary(candidates),
    }
}

/// The trimmed lines of a command's output, each a path to look for.
pub fn output_lines(text: &str) -> (r: Vec<String>)
    ensures
        crate::assets::spec_strings(r@) == crate::parse::spec_lines(text@).map_values(
            |l: Seq<char>| crate::parse::spec_trim(l),
        ),
{
    let cs = crate::text::chars_of(text);
    let s = cs.as_slice();
    let ranges = crate::parse::line_ranges(s);
    let ghost want = crate::parse::spec_lines(s@).map_values(|l: Seq<char>| crate::parse::spec_trim(l));
    let mut out: Vec<String> = Vec::new();
    let mut i: usize = 0;
    while i < ranges.len()
        invariant
            i <= ranges@.len(),
            ranges@.len() == crate::parse::spec_lines(s@).len(),
            want == crate::parse::spec_lines(s@).map_values(|l: Seq<char>| crate::parse::spec_trim(l)),
            forall|k: int|
                0 <= k < ranges@.len() ==> (#[trigger] ranges@[k]).0 <= ranges@[k].1 <= s@.len()
                    && s@.subrange(ranges@[k].0 as int, ranges@[k].1 as int) == crate::parse::spec_lines(s@)[k],
            out@.len() == i,
            forall|k: int| 0 <= k < i ==> (#[trigger] out@[k])@ == want[k],
        decreases ranges.len() - i,
    {
        let (lo, hi) = ranges[i];
        let (a, b) = crate::parse::trim_chars(s, lo, hi);
        let line = crate::parse::slice_range(s, a, b);
        out.push(string_of(line.as_slice()));
        i = i + 1;
    }
    assert(crate::assets::spec_strings(out@) =~= want);
    out
}

} // verus!
