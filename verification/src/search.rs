use vstd::prelude::*;
use crate::assets::Assets;
use crate::buddy::{spec_roll_with_salt, try_roll_with_salt, Buddy, BuddyView};
use crate::text::{
    decimal_string, push_decimal, push_str, push_zero_padded, spec_decimal, spec_zero_padded,
    string_of,
};

verus! {

/// A lower bound on one named stat: a buddy passes when that stat (zero when
/// the name is not one of the five) is at least `at_least`.
///
/// `at_least` is the least whole number that is not below the threshold that
/// was asked for, kept within `0..=256`: for a stat `v` in `0..=255`,
/// `v < threshold` exactly when `v < at_least`.
#[derive(Clone, Debug, PartialEq, Eq)]
pub struct MinStat {
    pub name: String,
    pub at_least: u16,
}

/// What a searched buddy must match; `None` fields match anything.
#[derive(Clone, Debug, PartialEq, Eq)]
pub struct SearchFilters {
    pub species: Option<String>,
    pub rarity: Option<String>,
    pub eye: Option<String>,
    pub hat: Option<String>,
    pub shiny: bool,
    pub min_stat: Option<MinStat>,
}

/// A salt that was searched and the buddy it gives.
#[derive(Clone, Debug, PartialEq, Eq)]
pub struct SearchMatch {
    pub salt: String,
    pub buddy: Buddy,
}

/// A search: salts `prefix` followed by the zero-padded index, for each index
/// below `total`, padded so that the salt is `length` bytes long; the search
/// stops once `max_matches` matches are found.
#[derive(Clone, Debug)]
pub struct SearchParams {
    pub user_id: String,
    pub total: usize,
    pub prefix: String,
    pub length: usize,
    pub filters: SearchFilters,
    pub max_matches: usize,
}

/// A match with its strings seen as character sequences.
pub struct SearchMatchView {
    pub salt: Seq<char>,
    pub buddy: BuddyView,
}

impl View for SearchMatch {
    type V = SearchMatchView;

    open spec fn view(&self) -> SearchMatchView {
        SearchMatchView { salt: self.salt@, buddy: self.buddy@ }
    }
}

/// The views of a list of matches.
pub open spec fn spec_matches_view(v: Seq<SearchMatch>) -> Seq<SearchMatchView> {
    v.map_values(|m: SearchMatch| m@)
}

/// The length in bytes of a string holding these characters, which is what
/// `str::len` reports: the length of their UTF-8 encoding.
pub open spec fn spec_byte_len(s: Seq<char>) -> nat {
    vstd::utf8::encode_utf8(s).len()
}

/// The length in bytes of a string slice.
pub fn byte_len(s: &str) -> (r: usize)
    ensures
        r == spec_byte_len(s@),
{
    let bytes = s.as_bytes();
    assert(bytes@.len() == bytes.len());
    s.len()
}

/// The salt for `index`: the prefix, then the index in decimal padded with
/// zeros to `length` bytes minus the prefix's bytes; an error when the prefix
/// is longer than `length` bytes.
pub open spec fn spec_generate_salt(prefix: Seq<char>, index: nat, length: nat) -> Result<
    Seq<char>,
    Seq<char>,
> {
    let plen = spec_byte_len(prefix);
    if plen > length {
        Err(
            "salt prefix length "@ + spec_decimal(plen) + " exceeds target length "@
                + spec_decimal(length),
        )
    } else {
        Ok(prefix + spec_zero_padded(index, (length - plen) as nat))
    }
}

/// Builds the salt for `index`.
pub fn generate_salt(prefix: &str, index: usize, length: usize) -> (r: Result<String, String>)
    ensures
        match spec_generate_salt(prefix@, index as nat, length as nat) {
            Ok(s) => r matches Ok(x) && x@ == s,
            Err(e) => r matches Err(x) && x@ == e,
        },
{
    let plen = byte_len(prefix);
    if plen > length {
        let mut out: Vec<char> = Vec::new();
        push_str(&mut out, "salt prefix length ");
        push_decimal(&mut out, plen as u64);
        push_str(&mut out, " exceeds target length ");
        push_decimal(&mut out, length as u64);
        assert(out@ =~= "salt prefix length "@ + spec_decimal(plen as nat)
            + " exceeds target length "@ + spec_decimal(length as nat));
        return Err(string_of(out.as_slice()));
    }
    let mut out: Vec<char> = Vec::new();
    push_str(&mut out, prefix);
    push_zero_padded(&mut out, index as u64, length - plen);
    Ok(string_of(out.as_slice()))
}

/// Ten to the power `w`.
pub open spec fn spec_pow10(w: nat) -> nat
    decreases w,
{
    if w == 0 {
        1
    } else {
        10 * spec_pow10((w - 1) as nat)
    }
}

proof fn lemma_encode_concat(a: Seq<char>, b: Seq<char>)
    ensures
        vstd::utf8::encode_utf8(a + b) == vstd::utf8::encode_utf8(a) + vstd::utf8::encode_utf8(b),
    decreases a.len(),
{
    if a.len() == 0 {
        assert(a + b =~= b);
        assert(vstd::utf8::encode_utf8(a) =~= Seq::<u8>::empty());
        assert(vstd::utf8::encode_utf8(a) + vstd::utf8::encode_utf8(b) =~= vstd::utf8::encode_utf8(b));
    } else {
        assert((a + b).drop_first() =~= a.drop_first() + b);
        assert((a + b)[0] == a[0]);
        lemma_encode_concat(a.drop_first(), b);
        assert(vstd::utf8::encode_utf8(a + b) =~= vstd::utf8::encode_utf8(a) + vstd::utf8::encode_utf8(b));
    }
}

proof fn lemma_decimal_ascii(n: nat)
    ensures
        vstd::utf8::is_ascii_chars(spec_decimal(n)),
        spec_decimal(n).len() >= 1,
    decreases n,
{
    if n >= 10 {
        lemma_decimal_ascii(n / 10);
        let d = spec_decimal(n);
        assert forall|i: int| 0 <= i < d.len() implies '\0' <= #[trigger] d[i] <= '\u{7f}' by {
            if i < d.len() - 1 {
                assert(d[i] == spec_decimal(n / 10)[i]);
            }
        }
    }
}

proof fn lemma_decimal_fits(n: nat, w: nat)
    requires
        1 <= w,
        n < spec_pow10(w),
    ensures
        spec_decimal(n).len() <= w,
    decreases n,
{
    if n >= 10 {
        assert(w >= 2) by {
            if w == 1 {
                assert(spec_pow10(0) == 1);
            }
        }
        assert(spec_pow10(w) == 10 * spec_pow10((w - 1) as nat));
        assert(n / 10 < spec_pow10((w - 1) as nat)) by (nonlinear_arith)
            requires
                n < 10 * spec_pow10((w - 1) as nat),
        ;
        lemma_decimal_fits(n / 10, (w - 1) as nat);
    }
}

/// The salts a search tries keep to the length asked for: the salt for index
/// `k` is at least `length` bytes long, and exactly `length` bytes long when
/// the prefix leaves room for at least one digit and `k` has no more digits
/// than that room.
pub proof fn lemma_salt_length(prefix: Seq<char>, k: nat, length: nat)
    requires
        spec_byte_len(prefix) <= length,
    ensures
        spec_generate_salt(prefix, k, length) is Ok,
        spec_byte_len(spec_generate_salt(prefix, k, length)->Ok_0) >= length,
        spec_byte_len(prefix) < length && k < spec_pow10((length - spec_byte_len(prefix)) as nat)
            ==> spec_byte_len(spec_generate_salt(prefix, k, length)->Ok_0) == length,
{
    let room = (length - spec_byte_len(prefix)) as nat;
    let pad = spec_zero_padded(k, room);
    lemma_encode_concat(prefix, pad);
    lemma_decimal_ascii(k);
    let d = spec_decimal(k);
    assert(vstd::utf8::is_ascii_chars(pad)) by {
        if d.len() < room {
            let z = crate::text::spec_zeros((room - d.len()) as nat);
            assert forall|i: int| 0 <= i < pad.len() implies '\0' <= #[trigger] pad[i] <= '\u{7f}' by {
                if i < z.len() {
                    assert(pad[i] == z[i]);
                } else {
                    assert(pad[i] == d[i - z.len()]);
                }
            }
        }
    }
    vstd::utf8::is_ascii_chars_encode_utf8(pad);
    assert(pad.len() >= room);
    if spec_byte_len(prefix) < length && k < spec_pow10(room) {
        lemma_decimal_fits(k, room);
    }
}

proof fn lemma_digit_code(m: nat)
    requires
        m < 10,
    ensures
        (crate::text::spec_digit(m) as u32) == 48 + m,
        crate::parse::spec_is_ascii_digit(crate::text::spec_digit(m)),
{
}

proof fn lemma_decimal_value(n: nat)
    ensures
        crate::parse::spec_all_digits(spec_decimal(n)),
        crate::parse::spec_digits_value(spec_decimal(n)) == n,
    decreases n,
{
    let d = spec_decimal(n);
    if n < 10 {
        lemma_digit_code(n);
        assert(d.drop_last() =~= Seq::<char>::empty());
        assert(('0' as u32) == 48);
        assert(d.last() == crate::text::spec_digit(n));
        assert(crate::parse::spec_digits_value(d) == crate::parse::spec_digits_value(d.drop_last()) * 10
            + ((d.last() as u32) - ('0' as u32)) as nat);
    } else {
        lemma_digit_code(n % 10);
        lemma_decimal_value(n / 10);
        assert(d.drop_last() =~= spec_decimal(n / 10));
        assert(n == (n / 10) * 10 + n % 10) by (nonlinear_arith);
        assert(('0' as u32) == 48);
        assert(d.last() == crate::text::spec_digit(n % 10));
        assert forall|i: int| 0 <= i < d.len() implies crate::parse::spec_is_ascii_digit(#[trigger] d[i]) by {
            if i < d.len() - 1 {
                assert(d[i] == spec_decimal(n / 10)[i]);
            }
        }
    }
}

proof fn lemma_zeros_value(z: nat)
    ensures
        crate::parse::spec_digits_value(crate::text::spec_zeros(z)) == 0,
    decreases z,
{
    if z > 0 {
        assert(crate::text::spec_zeros(z).drop_last() =~= crate::text::spec_zeros((z - 1) as nat));
        lemma_zeros_value((z - 1) as nat);
    }
}

proof fn lemma_leading_zeros_value(z: nat, d: Seq<char>)
    ensures
        crate::parse::spec_digits_value(crate::text::spec_zeros(z) + d) == crate::parse::spec_digits_value(d),
    decreases d.len(),
{
    let zs = crate::text::spec_zeros(z);
    if d.len() == 0 {
        assert(zs + d =~= zs);
        lemma_zeros_value(z);
    } else {
        assert((zs + d).drop_last() =~= zs + d.drop_last());
        lemma_leading_zeros_value(z, d.drop_last());
    }
}

/// A search salt reads back as its index: the salt for index `k` is the
/// prefix followed by decimal digits only, whose value is `k`.
pub proof fn lemma_salt_reads_back(prefix: Seq<char>, k: nat, length: nat)
    requires
        spec_generate_salt(prefix, k, length) is Ok,
    ensures
        ({
            let s = spec_generate_salt(prefix, k, length)->Ok_0;
            let digits = s.subrange(prefix.len() as int, s.len() as int);
            &&& prefix.len() <= s.len()
            &&& s.subrange(0, prefix.len() as int) == prefix
            &&& crate::parse::spec_all_digits(digits)
            &&& crate::parse::spec_digits_value(digits) == k
        }),
{
    let room = (length - spec_byte_len(prefix)) as nat;
    let pad = spec_zero_padded(k, room);
    let s = prefix + pad;
    assert(s.subrange(0, prefix.len() as int) =~= prefix);
    assert(s.subrange(prefix.len() as int, s.len() as int) =~= pad);
    lemma_decimal_value(k);
    let d = spec_decimal(k);
    if d.len() < room {
        let z = crate::text::spec_zeros((room - d.len()) as nat);
        lemma_leading_zeros_value((room - d.len()) as nat, d);
        assert forall|i: int| 0 <= i < pad.len() implies crate::parse::spec_is_ascii_digit(#[trigger] pad[i]) by {
            if i < z.len() {
                assert(pad[i] == z[i]);
            } else {
                assert(pad[i] == d[i - z.len()]);
            }
        }
    }
}

/// An optional filter on a string: absent, or equal to the value.
pub open spec fn spec_string_filter(filter: Option<String>, value: Seq<char>) -> bool {
    match filter {
        Some(f) => f@ == value,
        None => true,
    }
}

/// Whether a buddy passes the filters.
pub open spec fn spec_matches_filters(b: BuddyView, f: &SearchFilters) -> bool {
    &&& spec_string_filter(f.species, b.species)
    &&& spec_string_filter(f.rarity, b.rarity)
    &&& spec_string_filter(f.eye, b.eye)
    &&& spec_string_filter(f.hat, b.hat)
    &&& (f.shiny ==> b.shiny)
    &&& match f.min_stat {
        Some(m) => {
            let v = match b.stats.spec_get(m.name@) {
                Some(v) => v,
                None => 0u8,
            };
            v >= m.at_least
        },
        None => true,
    }
}

fn string_filter(filter: &Option<String>, value: &String) -> (r: bool)
    ensures
        r == spec_string_filter(*filter, value@),
{
    match filter {
        Some(f) => *f == *value,
        None => true,
    }
}

/// Whether a buddy passes the filters.
pub fn matches_filters(result: &Buddy, filters: &SearchFilters) -> (r: bool)
    ensures
        r == spec_matches_filters(result@, filters),
{
    if !string_filter(&filters.species, &result.species) {
        return false;
    }
    if !string_filter(&filters.rarity, &result.rarity) {
        return false;
    }
    if !string_filter(&filters.eye, &result.eye) {
        return false;
    }
    if !string_filter(&filters.hat, &result.hat) {
        return false;
    }
    if filters.shiny && !result.shiny {
        return false;
    }
    match &filters.min_stat {
        Some(m) => {
            let v = match result.stats.get(m.name.as_str()) {
                Some(v) => v,
                None => 0,
            };
            (v as u16) >= m.at_least
        },
        None => true,
    }
}

/// The matches of a search from index `i` on, after the matches `acc` found
/// before it; `None` when a salt cannot be built or a roll cannot finish.
pub open spec fn spec_search_from(a: &Assets, p: &SearchParams, i: nat, acc: Seq<SearchMatchView>) -> Option<
    Seq<SearchMatchView>,
>
    decreases p.total - i,
{
    if i >= p.total {
        Some(acc)
    } else {
        match spec_generate_salt(p.prefix@, i, p.length as nat) {
            Err(_) => None,
            Ok(salt) => match spec_roll_with_salt(a, p.user_id@, salt) {
                None => None,
                Some(b) => if spec_matches_filters(b, &p.filters) {
                    let acc2 = acc.push(SearchMatchView { salt, buddy: b });
                    if acc2.len() >= p.max_matches {
                        Some(acc2)
                    } else {
                        spec_search_from(a, p, i + 1, acc2)
                    }
                } else {
                    spec_search_from(a, p, i + 1, acc)
                },
            },
        }
    }
}

/// The matches of a search.
pub open spec fn spec_search(a: &Assets, p: &SearchParams) -> Option<Seq<SearchMatchView>> {
    spec_search_from(a, p, 0, Seq::empty())
}

/// Runs a search; `None` when a salt cannot be built or a roll cannot finish.
pub fn try_search_salts(assets: &Assets, params: &SearchParams) -> (r: Option<Vec<SearchMatch>>)
    ensures
        match spec_search(assets, params) {
            None => r is None,
            Some(ms) => r matches Some(v) && spec_matches_view(v@) == ms,
        },
{
    let mut matches: Vec<SearchMatch> = Vec::new();
    let mut index: usize = 0;
    assert(spec_matches_view(matches@) =~= Seq::<SearchMatchView>::empty());
    while index < params.total
        invariant
            index <= params.total,
            spec_search(assets, params) == spec_search_from(
                assets,
                params,
                index as nat,
                spec_matches_view(matches@),
            ),
        decreases params.total - index,
    {
        let salt = match generate_salt(params.prefix.as_str(), index, params.length) {
            Ok(s) => s,
            Err(_) => return None,
        };
        let buddy = match try_roll_with_salt(assets, params.user_id.as_str(), salt.as_str()) {
            Some(b) => b,
            None => return None,
        };
        if matches_filters(&buddy, &params.filters) {
            let ghost before = matches@;
            matches.push(SearchMatch { salt, buddy });
            assert(spec_matches_view(matches@) =~= spec_matches_view(before).push(
                matches@[before.len() as int]@,
            ));
            if matches.len() >= params.max_matches {
                return Some(matches);
            }
        }
        index = index + 1;
    }
    Some(matches)
}

/// Runs a search.
pub fn search_salts(assets: &Assets, params: SearchParams) -> (r: Vec<SearchMatch>)
    requires
        spec_search(assets, &params) is Some,
    ensures
        spec_matches_view(r@) == spec_search(assets, &params)->0,
{
    let r = try_search_salts(assets, &params);
    r.unwrap()
}

/// A buddy passes the filters exactly when it has each species, rarity, eye
/// and hat asked for, is shiny if shininess is asked for, and its named stat
/// (zero for a name that is not a stat) reaches the threshold asked for.
pub proof fn lemma_filters_pass_exactly(b: BuddyView, f: &SearchFilters)
    ensures
        spec_matches_filters(b, f) <==> {
            &&& (f.species matches Some(s) ==> b.species == s@)
            &&& (f.rarity matches Some(s) ==> b.rarity == s@)
            &&& (f.eye matches Some(s) ==> b.eye == s@)
            &&& (f.hat matches Some(s) ==> b.hat == s@)
            &&& (f.shiny ==> b.shiny)
            &&& (f.min_stat matches Some(m) ==> (if b.stats.spec_get(m.name@) is Some {
                b.stats.spec_get(m.name@)->0
            } else {
                0u8
            }) >= m.at_least)
        },
{
}

/// Every match of a search has what the filters ask for: the species, rarity,
/// eye and hat asked for, shininess if asked for, and the stat threshold.
pub proof fn lemma_search_matches_have_filters(a: &Assets, p: &SearchParams)
    requires
        spec_search(a, p) is Some,
    ensures
        forall|j: int|
            0 <= j < spec_search(a, p)->0.len() ==> {
                let b = (#[trigger] spec_search(a, p)->0[j]).buddy;
                &&& (p.filters.species matches Some(s) ==> b.species == s@)
                &&& (p.filters.rarity matches Some(s) ==> b.rarity == s@)
                &&& (p.filters.eye matches Some(s) ==> b.eye == s@)
                &&& (p.filters.hat matches Some(s) ==> b.hat == s@)
                &&& (p.filters.shiny ==> b.shiny)
            },
{
    lemma_search_results(a, p);
    let r = spec_search(a, p)->0;
    assert forall|j: int| 0 <= j < r.len() implies {
        let b = (#[trigger] r[j]).buddy;
        &&& (p.filters.species matches Some(s) ==> b.species == s@)
        &&& (p.filters.rarity matches Some(s) ==> b.rarity == s@)
        &&& (p.filters.eye matches Some(s) ==> b.eye == s@)
        &&& (p.filters.hat matches Some(s) ==> b.hat == s@)
        &&& (p.filters.shiny ==> b.shiny)
    } by {
        lemma_filters_pass_exactly(r[j].buddy, &p.filters);
    }
}

/// Filters that ask for nothing let every buddy through.
pub proof fn lemma_no_filters_match_all(b: BuddyView, f: &SearchFilters)
    requires
        f.species is None,
        f.rarity is None,
        f.eye is None,
        f.hat is None,
        !f.shiny,
        f.min_stat is None,
    ensures
        spec_matches_filters(b, f),
{
}

/// The match that index `k` of a search yields, if its buddy passes the filters.
pub open spec fn spec_match_at(a: &Assets, p: &SearchParams, k: nat) -> Option<SearchMatchView> {
    match spec_generate_salt(p.prefix@, k, p.length as nat) {
        Err(_) => None,
        Ok(salt) => match spec_roll_with_salt(a, p.user_id@, salt) {
            None => None,
            Some(b) => if spec_matches_filters(b, &p.filters) {
                Some(SearchMatchView { salt, buddy: b })
            } else {
                None
            },
        },
    }
}

/// A match is found by the search at some index below `bound`.
pub open spec fn spec_found_below(a: &Assets, p: &SearchParams, m: SearchMatchView, bound: nat) -> bool {
    exists|k: nat| k < bound && #[trigger] spec_match_at(a, p, k) == Some(m)
}

proof fn lemma_search_from_facts(a: &Assets, p: &SearchParams, i: nat, acc: Seq<SearchMatchView>)
    requires
        spec_search_from(a, p, i, acc) is Some,
        i <= p.total,
        forall|j: int| 0 <= j < acc.len() ==> spec_found_below(a, p, #[trigger] acc[j], i),
        acc.len() == 0 || acc.len() < p.max_matches,
        forall|k: nat| k < i && #[trigger] spec_match_at(a, p, k) is Some ==> acc.contains(
            spec_match_at(a, p, k)->0,
        ),
    ensures
        ({
            let r = spec_search_from(a, p, i, acc)->0;
            &&& forall|j: int| 0 <= j < r.len() ==> spec_found_below(a, p, #[trigger] r[j], p.total as nat)
            &&& r.len() <= if p.max_matches == 0 { 1 } else { p.max_matches }
            &&& r.len() < p.max_matches ==> forall|k: nat| k < p.total && #[trigger] spec_match_at(a, p, k) is Some
                ==> r.contains(spec_match_at(a, p, k)->0)
            &&& forall|j: int| 0 <= j < acc.len() ==> r[j] == acc[j]
            &&& acc.len() <= r.len()
        }),
    decreases p.total - i,
{
    let r = spec_search_from(a, p, i, acc)->0;
    if i >= p.total {
        assert forall|j: int| 0 <= j < r.len() implies spec_found_below(a, p, #[trigger] r[j], p.total as nat) by {
            let k = choose|k: nat| k < i && #[trigger] spec_match_at(a, p, k) == Some(r[j]);
        }
    } else {
        let salt = spec_generate_salt(p.prefix@, i, p.length as nat)->Ok_0;
        let b = spec_roll_with_salt(a, p.user_id@, salt)->0;
        if spec_matches_filters(b, &p.filters) {
            let m = SearchMatchView { salt, buddy: b };
            assert(spec_match_at(a, p, i) == Some(m));
            let acc2 = acc.push(m);
            assert forall|j: int| 0 <= j < acc2.len() implies spec_found_below(a, p, #[trigger] acc2[j], i + 1) by {
                if j < acc.len() {
                    assert(acc2[j] == acc[j]);
                    let k = choose|k: nat| k < i && #[trigger] spec_match_at(a, p, k) == Some(acc[j]);
                } else {
                    assert(spec_match_at(a, p, i) == Some(acc2[j]));
                }
            }
            assert forall|k: nat| k < i + 1 && #[trigger] spec_match_at(a, p, k) is Some implies acc2.contains(
                spec_match_at(a, p, k)->0,
            ) by {
                if k < i {
                    let j = choose|j: int| 0 <= j < acc.len() && acc[j] == spec_match_at(a, p, k)->0;
                    assert(acc2[j] == acc[j]);
                } else {
                    assert(acc2[acc.len() as int] == m);
                }
            }
            if acc2.len() >= p.max_matches {
                assert forall|j: int| 0 <= j < r.len() implies spec_found_below(a, p, #[trigger] r[j], p.total as nat) by {
                    let k = choose|k: nat| k < i + 1 && #[trigger] spec_match_at(a, p, k) == Some(r[j]);
                }
            } else {
                lemma_search_from_facts(a, p, i + 1, acc2);
            }
        } else {
            assert(spec_match_at(a, p, i) is None);
            assert forall|j: int| 0 <= j < acc.len() implies spec_found_below(a, p, #[trigger] acc[j], i + 1) by {
                let k = choose|k: nat| k < i && #[trigger] spec_match_at(a, p, k) == Some(acc[j]);
            }
            lemma_search_from_facts(a, p, i + 1, acc);
        }
    }
}

/// The matches among indices below `n`, in index order, none skipped.
pub open spec fn spec_matches_upto(a: &Assets, p: &SearchParams, n: nat) -> Seq<SearchMatchView>
    decreases n,
{
    if n == 0 {
        Seq::empty()
    } else {
        let prev = spec_matches_upto(a, p, (n - 1) as nat);
        match spec_match_at(a, p, (n - 1) as nat) {
            Some(m) => prev.push(m),
            None => prev,
        }
    }
}

/// How many matches a search keeps: `max_matches`, but at least one.
pub open spec fn spec_match_cap(p: &SearchParams) -> nat {
    if p.max_matches == 0 {
        1
    } else {
        p.max_matches as nat
    }
}

proof fn lemma_matches_upto_prefix(a: &Assets, p: &SearchParams, i: nat, j: nat)
    requires
        i <= j,
    ensures
        spec_matches_upto(a, p, i).len() <= spec_matches_upto(a, p, j).len(),
        spec_matches_upto(a, p, j).subrange(0, spec_matches_upto(a, p, i).len() as int)
            == spec_matches_upto(a, p, i),
    decreases j,
{
    if i < j {
        lemma_matches_upto_prefix(a, p, i, (j - 1) as nat);
        let prev = spec_matches_upto(a, p, (j - 1) as nat);
        let n = spec_matches_upto(a, p, i).len() as int;
        assert(spec_matches_upto(a, p, j).subrange(0, n) =~= prev.subrange(0, n));
    } else {
        assert(spec_matches_upto(a, p, j).subrange(0, spec_matches_upto(a, p, j).len() as int)
            =~= spec_matches_upto(a, p, j));
    }
}

proof fn lemma_search_from_take(a: &Assets, p: &SearchParams, i: nat, acc: Seq<SearchMatchView>)
    requires
        spec_search_from(a, p, i, acc) is Some,
        i <= p.total,
        acc == spec_matches_upto(a, p, i),
        acc.len() < spec_match_cap(p),
    ensures
        ({
            let all = spec_matches_upto(a, p, p.total as nat);
            spec_search_from(a, p, i, acc)->0 == if all.len() <= spec_match_cap(p) {
                all
            } else {
                all.take(spec_match_cap(p) as int)
            }
        }),
    decreases p.total - i,
{
    if i < p.total {
        let salt = spec_generate_salt(p.prefix@, i, p.length as nat)->Ok_0;
        let b = spec_roll_with_salt(a, p.user_id@, salt)->0;
        if spec_matches_filters(b, &p.filters) {
            let acc2 = acc.push(SearchMatchView { salt, buddy: b });
            assert(acc2 == spec_matches_upto(a, p, i + 1));
            if acc2.len() >= p.max_matches {
                assert(acc2.len() == spec_match_cap(p));
                lemma_matches_upto_prefix(a, p, i + 1, p.total as nat);
                let all = spec_matches_upto(a, p, p.total as nat);
                assert(all.take(spec_match_cap(p) as int) =~= acc2);
            } else {
                lemma_search_from_take(a, p, i + 1, acc2);
            }
        } else {
            assert(acc == spec_matches_upto(a, p, i + 1));
            lemma_search_from_take(a, p, i + 1, acc);
        }
    }
}

/// A search keeps the earliest matches in index order, none skipped: its
/// result is the list of matches among the indices below `total`, cut to
/// `max_matches` (at least one).
pub proof fn lemma_search_takes_first_matches(a: &Assets, p: &SearchParams)
    requires
        spec_search(a, p) is Some,
    ensures
        ({
            let all = spec_matches_upto(a, p, p.total as nat);
            spec_search(a, p)->0 == if all.len() <= spec_match_cap(p) {
                all
            } else {
                all.take(spec_match_cap(p) as int)
            }
        }),
{
    lemma_search_from_take(a, p, 0, Seq::empty());
}

/// What a search finds: every match is the salt of some index below `total`
/// with the buddy it rolls, and that buddy passes the filters; there are at
/// most `max_matches` matches (one when `max_matches` is zero); and when
/// fewer than `max_matches` are found, every index below `total` whose buddy
/// passes the filters is among them.
pub proof fn lemma_search_results(a: &Assets, p: &SearchParams)
    requires
        spec_search(a, p) is Some,
    ensures
        ({
            let r = spec_search(a, p)->0;
            &&& forall|j: int| 0 <= j < r.len() ==> {
                &&& spec_found_below(a, p, #[trigger] r[j], p.total as nat)
                &&& spec_matches_filters(r[j].buddy, &p.filters)
            }
            &&& r.len() <= if p.max_matches == 0 { 1 } else { p.max_matches }
            &&& r.len() < p.max_matches ==> forall|k: nat|
                k < p.total && #[trigger] spec_match_at(a, p, k) is Some ==> r.contains(
                    spec_match_at(a, p, k)->0,
                )
        }),
{
    lemma_search_from_facts(a, p, 0, Seq::empty());
    let r = spec_search(a, p)->0;
    assert forall|j: int| 0 <= j < r.len() implies spec_matches_filters(r[j].buddy, &p.filters) by {
        assert(spec_found_below(a, p, r[j], p.total as nat));
        let k = choose|k: nat| k < p.total && #[trigger] spec_match_at(a, p, k) == Some(r[j]);
    }
}

} // verus!
