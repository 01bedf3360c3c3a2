use vstd::prelude::*;

verus! {

/// The tables that rolling and rendering read: the rarity ladder and its
/// weights, the species, eyes, hats and stat names, each rarity's stat floor,
/// each species' sprite frames and each hat's sprite line.
///
/// A keyed table is a list of `(key, value)` entries read from a map, so no
/// key occurs twice; a lookup finds the entry with the given key (the first
/// one, were there two).
pub struct Assets {
    pub default_salt: String,
    pub rarities: Vec<String>,
    pub rarity_weights: Vec<(String, u32)>,
    pub species: Vec<String>,
    pub eyes: Vec<String>,
    pub hats: Vec<String>,
    pub stat_names: Vec<String>,
    pub rarity_floor: Vec<(String, u8)>,
    pub bodies: Vec<(String, Vec<Vec<String>>)>,
    pub hat_lines: Vec<(String, String)>,
}

/// The value stored under `key` in a keyed table (the first entry with that key).
pub open spec fn spec_lookup<V>(entries: Seq<(String, V)>, key: Seq<char>) -> Option<V>
    decreases entries.len(),
{
    if entries.len() == 0 {
        None
    } else if entries[0].0@ == key {
        Some(entries[0].1)
    } else {
        spec_lookup(entries.drop_first(), key)
    }
}

/// The sum of all weights of a keyed table of weights.
pub open spec fn spec_weight_total(entries: Seq<(String, u32)>) -> nat
    decreases entries.len(),
{
    if entries.len() == 0 {
        0
    } else {
        spec_weight_total(entries.drop_last()) + (entries.last().1 as nat)
    }
}

/// The character sequences of a list of strings.
pub open spec fn spec_strings(v: Seq<String>) -> Seq<Seq<char>> {
    v.map_values(|s: String| s@)
}

proof fn lemma_lookup_skip<V>(entries: Seq<(String, V)>, key: Seq<char>, i: int)
    requires
        0 <= i < entries.len(),
        entries[i].0@ != key,
    ensures
        spec_lookup(entries.subrange(i, entries.len() as int), key) == spec_lookup(
            entries.subrange(i + 1, entries.len() as int),
            key,
        ),
{
    assert(entries.subrange(i, entries.len() as int).drop_first() =~= entries.subrange(
        i + 1,
        entries.len() as int,
    ));
}

/// Finds the index of the entry with the given key.
pub fn find_key<V>(entries: &Vec<(String, V)>, key: &str) -> (r: Option<usize>)
    ensures
        match r {
            Some(i) => i < entries@.len() && entries@[i as int].0@ == key@ && spec_lookup(
                entries@,
                key@,
            ) == Some(entries@[i as int].1),
            None => spec_lookup(entries@, key@) is None,
        },
{
    let mut i: usize = 0;
    assert(entries@.subrange(0, entries@.len() as int) =~= entries@);
    while i < entries.len()
        invariant
            i <= entries@.len(),
            spec_lookup(entries@, key@) == spec_lookup(
                entries@.subrange(i as int, entries@.len() as int),
                key@,
            ),
        decreases entries.len() - i,
    {
        if crate::text::str_eq(entries[i].0.as_str(), key) {
            assert(entries@.subrange(i as int, entries@.len() as int)[0] == entries@[i as int]);
            return Some(i);
        }
        proof {
            lemma_lookup_skip(entries@, key@, i as int);
        }
        i = i + 1;
    }
    None
}

/// The weight stored for `key`, or zero.
pub fn weight_of(entries: &Vec<(String, u32)>, key: &str) -> (r: u32)
    ensures
        r == match spec_lookup(entries@, key@) {
            Some(w) => w,
            None => 0u32,
        },
{
    match find_key(entries, key) {
        Some(i) => entries[i].1,
        None => 0,
    }
}

/// The floor stored for `key`, or zero.
pub fn floor_of(entries: &Vec<(String, u8)>, key: &str) -> (r: u8)
    ensures
        r == match spec_lookup(entries@, key@) {
            Some(w) => w,
            None => 0u8,
        },
{
    match find_key(entries, key) {
        Some(i) => entries[i].1,
        None => 0,
    }
}

/// The sum of all weights, or `None` when it exceeds `u32::MAX`.
pub fn weight_total(entries: &Vec<(String, u32)>) -> (r: Option<u32>)
    ensures
        match r {
            Some(t) => t == spec_weight_total(entries@),
            None => spec_weight_total(entries@) > u32::MAX,
        },
{
    let mut total: u32 = 0;
    let mut i: usize = 0;
    while i < entries.len()
        invariant
            i <= entries@.len(),
            total == spec_weight_total(entries@.subrange(0, i as int)),
        decreases entries.len() - i,
    {
        let ghost prefix = entries@.subrange(0, i + 1);
        assert(prefix.drop_last() =~= entries@.subrange(0, i as int));
        let w = entries[i].1;
        match total.checked_add(w) {
            Some(t) => {
                total = t;
            },
            None => {
                proof {
                    lemma_weight_total_prefix_mono(entries@, i + 1);
                }
                return None;
            },
        }
        i = i + 1;
    }
    assert(entries@.subrange(0, entries@.len() as int) =~= entries@);
    Some(total)
}

proof fn lemma_weight_total_prefix_mono(entries: Seq<(String, u32)>, k: int)
    requires
        0 <= k <= entries.len(),
    ensures
        spec_weight_total(entries.subrange(0, k)) <= spec_weight_total(entries),
    decreases entries.len() - k,
{
    if k < entries.len() {
        lemma_weight_total_prefix_mono(entries, k + 1);
        assert(entries.subrange(0, k + 1).drop_last() =~= entries.subrange(0, k));
    } else {
        assert(entries.subrange(0, k) =~= entries);
    }
}

} // verus!
