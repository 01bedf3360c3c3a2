use vstd::prelude::*;
use crate::assets::{
    floor_of, spec_lookup, spec_weight_total, weight_of, weight_total, Assets,
};
use crate::rng::{scaled, spec_advance, spec_draw, spec_hash, spec_scaled, Mulberry32};
use crate::text::str_eq;
pub use crate::render::{
    render_blink_sprite, render_face, render_sprite, render_sprite_frames, sprite_frame_count,
};
pub use crate::search::{search_salts, MinStat, SearchFilters, SearchMatch, SearchParams};

verus! {

/// A buddy's five stats.
#[derive(Clone, Copy, Debug, PartialEq, Eq, Structural)]
pub struct Stats {
    pub debugging: u8,
    pub patience: u8,
    pub chaos: u8,
    pub wisdom: u8,
    pub snark: u8,
}

impl Stats {
    /// The stat with the given name, if the name is one of the five.
    pub open spec fn spec_get(self, name: Seq<char>) -> Option<u8> {
        if name == "DEBUGGING"@ {
            Some(self.debugging)
        } else if name == "PATIENCE"@ {
            Some(self.patience)
        } else if name == "CHAOS"@ {
            Some(self.chaos)
        } else if name == "WISDOM"@ {
            Some(self.wisdom)
        } else if name == "SNARK"@ {
            Some(self.snark)
        } else {
            None
        }
    }

    /// These stats with the named one set to `value`; unchanged for any other name.
    pub open spec fn spec_set(self, name: Seq<char>, value: u8) -> Stats {
        if name == "DEBUGGING"@ {
            Stats { debugging: value, ..self }
        } else if name == "PATIENCE"@ {
            Stats { patience: value, ..self }
        } else if name == "CHAOS"@ {
            Stats { chaos: value, ..self }
        } else if name == "WISDOM"@ {
            Stats { wisdom: value, ..self }
        } else if name == "SNARK"@ {
            Stats { snark: value, ..self }
        } else {
            self
        }
    }

    /// All five stats at zero.
    pub open spec fn spec_zero() -> Stats {
        Stats { debugging: 0, patience: 0, chaos: 0, wisdom: 0, snark: 0 }
    }

    /// The stat with the given name, if the name is one of the five.
    pub fn get(&self, name: &str) -> (r: Option<u8>)
        ensures
            r == self.spec_get(name@),
    {
        if str_eq(name, "DEBUGGING") {
            Some(self.debugging)
        } else if str_eq(name, "PATIENCE") {
            Some(self.patience)
        } else if str_eq(name, "CHAOS") {
            Some(self.chaos)
        } else if str_eq(name, "WISDOM") {
            Some(self.wisdom)
        } else if str_eq(name, "SNARK") {
            Some(self.snark)
        } else {
            None
        }
    }

    fn set(&mut self, name: &str, value: u8)
        ensures
            *final(self) == old(self).spec_set(name@, value),
    {
        if str_eq(name, "DEBUGGING") {
            self.debugging = value;
        } else if str_eq(name, "PATIENCE") {
            self.patience = value;
        } else if str_eq(name, "CHAOS") {
            self.chaos = value;
        } else if str_eq(name, "WISDOM") {
            self.wisdom = value;
        } else if str_eq(name, "SNARK") {
            self.snark = value;
        }
    }
}

impl Default for Stats {
    fn default() -> (r: Self)
        ensures
            r == Stats::spec_zero(),
    {
        Stats { debugging: 0, patience: 0, chaos: 0, wisdom: 0, snark: 0 }
    }
}

/// A rolled buddy.
#[derive(Clone, Debug, PartialEq, Eq)]
pub struct Buddy {
    pub rarity: String,
    pub species: String,
    pub eye: String,
    pub hat: String,
    pub shiny: bool,
    pub stats: Stats,
    pub inspiration_seed: u32,
}

/// A buddy with its strings seen as character sequences.
pub struct BuddyView {
    pub rarity: Seq<char>,
    pub species: Seq<char>,
    pub eye: Seq<char>,
    pub hat: Seq<char>,
    pub shiny: bool,
    pub stats: Stats,
    pub inspiration_seed: u32,
}

impl View for Buddy {
    type V = BuddyView;

    open spec fn view(&self) -> BuddyView {
        BuddyView {
            rarity: self.rarity@,
            species: self.species@,
            eye: self.eye@,
            hat: self.hat@,
            shiny: self.shiny,
            stats: self.stats,
            inspiration_seed: self.inspiration_seed,
        }
    }
}

/// The number of draws within which the dump stat is sought: the period of the
/// generator's state, after which every later draw repeats an earlier one.
pub open spec fn spec_dump_fuel() -> nat {
    0x1_0000_0000nat
}

/// The seed of a roll: the hash of the user id followed by the salt.
pub open spec fn spec_seed(user_id: Seq<char>, salt: Seq<char>) -> u32 {
    spec_hash(user_id + salt)
}

/// A draw from `state` picks from `values`: the entry at
/// `floor(draw / 2^32 * len)`, with the state after the draw.
pub open spec fn spec_pick(values: Seq<String>, state: u32) -> Option<(Seq<char>, u32)> {
    if values.len() == 0 {
        None
    } else {
        Some((values[spec_scaled(spec_draw(state), values.len()) as int]@, spec_advance(state)))
    }
}

/// The weight of a rarity (zero when it has none).
pub open spec fn spec_weight(weights: Seq<(String, u32)>, key: Seq<char>) -> nat {
    match spec_lookup(weights, key) {
        Some(w) => w as nat,
        None => 0,
    }
}

/// Walks the rarity ladder from rung `i` with cumulative weight `cum` and
/// returns the first rarity whose cumulative weight exceeds `target / 2^32`
/// (`target` is the draw times the total weight); `"common"` past the end.
pub open spec fn spec_rarity_from(
    rarities: Seq<String>,
    weights: Seq<(String, u32)>,
    target: nat,
    i: int,
    cum: nat,
) -> Seq<char>
    decreases rarities.len() - i,
{
    if i < 0 || i >= rarities.len() {
        "common"@
    } else {
        let c = cum + spec_weight(weights, rarities[i]@);
        if target < c * 0x1_0000_0000 {
            rarities[i]@
        } else {
            spec_rarity_from(rarities, weights, target, i + 1, c)
        }
    }
}

/// The rarity a draw from `state` lands on, with the state after the draw;
/// `None` when the weights add up past `u32::MAX`.
pub open spec fn spec_roll_rarity(a: &Assets, state: u32) -> Option<(Seq<char>, u32)> {
    let total = spec_weight_total(a.rarity_weights@);
    if total > u32::MAX {
        None
    } else {
        Some(
            (
                spec_rarity_from(
                    a.rarities@,
                    a.rarity_weights@,
                    (spec_draw(state) as nat) * total,
                    0,
                    0,
                ),
                spec_advance(state),
            ),
        )
    }
}

/// Draws stat names from `state` until one differs from `peak`, at most `fuel`
/// times; the name found and the state after it.
pub open spec fn spec_dump_search(names: Seq<String>, peak: Seq<char>, state: u32, fuel: nat) -> Option<
    (Seq<char>, u32),
>
    decreases fuel,
{
    if fuel == 0 || names.len() == 0 {
        None
    } else {
        let d = names[spec_scaled(spec_draw(state), names.len()) as int]@;
        if d != peak {
            Some((d, spec_advance(state)))
        } else {
            spec_dump_search(names, peak, spec_advance(state), (fuel - 1) as nat)
        }
    }
}

/// The value of a stat rolled with `draw`: the peak stat gets
/// `min(floor + 50 + floor(30 x), 100)`, the dump stat `max(floor - 10 + floor(15 x), 1)`,
/// any other `floor + floor(40 x)`, where `x = draw / 2^32`; the result is
/// taken as `u8`, as a cast does.
pub open spec fn spec_stat_value(
    name: Seq<char>,
    floor: u8,
    peak: Seq<char>,
    dump: Seq<char>,
    draw: u32,
) -> u8 {
    if name == peak {
        let v = floor + 50 + spec_scaled(draw, 30);
        (if v < 100 {
            v
        } else {
            100
        }) as u8
    } else if name == dump {
        let raw: int = floor - 10 + spec_scaled(draw, 15);
        (if raw < 1 {
            1
        } else {
            raw
        }) as u8
    } else {
        (floor + spec_scaled(draw, 40)) as u8
    }
}

/// The stats after rolling the first `n` stat names from `state`, with the state after.
pub open spec fn spec_stats_fold(
    names: Seq<String>,
    floor: u8,
    peak: Seq<char>,
    dump: Seq<char>,
    state: u32,
    n: nat,
) -> (Stats, u32)
    decreases n,
{
    if n == 0 || n > names.len() {
        (Stats::spec_zero(), state)
    } else {
        let prev = spec_stats_fold(names, floor, peak, dump, state, (n - 1) as nat);
        let name = names[n - 1]@;
        (
            prev.0.spec_set(name, spec_stat_value(name, floor, peak, dump, spec_draw(prev.1))),
            spec_advance(prev.1),
        )
    }
}

/// The stats rolled for `rarity` from `state`, with the state after; `None`
/// when there are no stat names or no stat other than the peak is ever drawn.
pub open spec fn spec_roll_stats(a: &Assets, rarity: Seq<char>, state: u32) -> Option<(Stats, u32)> {
    let names = a.stat_names@;
    let floor = match spec_lookup(a.rarity_floor@, rarity) {
        Some(f) => f,
        None => 0u8,
    };
    match spec_pick(names, state) {
        None => None,
        Some((peak, s1)) => match spec_dump_search(names, peak, s1, spec_dump_fuel()) {
            None => None,
            Some((dump, s2)) => Some(
                spec_stats_fold(names, floor, peak, dump, s2, names.len()),
            ),
        },
    }
}

/// The hat: `"none"` for a common buddy, otherwise a draw from the hats.
pub open spec fn spec_roll_hat(a: &Assets, rarity: Seq<char>, state: u32) -> Option<(Seq<char>, u32)> {
    if rarity == "common"@ {
        Some(("none"@, state))
    } else {
        spec_pick(a.hats@, state)
    }
}

/// The buddy rolled from `seed`, drawing in turn the rarity, species, eye,
/// hat, shininess (a draw below one in a hundred), stats and inspiration seed
/// (`floor(10^9 x)`); `None` on the tables on which a roll cannot finish.
pub open spec fn spec_roll(a: &Assets, seed: u32) -> Option<BuddyView> {
    match spec_roll_rarity(a, seed) {
        None => None,
        Some((rarity, s1)) => match spec_pick(a.species@, s1) {
            None => None,
            Some((species, s2)) => match spec_pick(a.eyes@, s2) {
                None => None,
                Some((eye, s3)) => match spec_roll_hat(a, rarity, s3) {
                    None => None,
                    Some((hat, s4)) => {
                        let shiny = (spec_draw(s4) as nat) * 100 < 0x1_0000_0000;
                        match spec_roll_stats(a, rarity, spec_advance(s4)) {
                            None => None,
                            Some((stats, s6)) => Some(
                                BuddyView {
                                    rarity,
                                    species,
                                    eye,
                                    hat,
                                    shiny,
                                    stats,
                                    inspiration_seed: spec_scaled(
                                        spec_draw(s6),
                                        1_000_000_000,
                                    ) as u32,
                                },
                            ),
                        }
                    },
                },
            },
        },
    }
}

/// The buddy for a user id and a salt.
#[verifier::opaque]
pub open spec fn spec_roll_with_salt(a: &Assets, user_id: Seq<char>, salt: Seq<char>) -> Option<
    BuddyView,
> {
    spec_roll(a, spec_seed(user_id, salt))
}

/// Draws an index into a list of `len` entries.
pub fn pick(rng: &mut Mulberry32, len: usize) -> (r: usize)
    requires
        len > 0,
    ensures
        r < len,
        r == spec_scaled(spec_draw(old(rng).state), len as nat),
        final(rng).state == spec_advance(old(rng).state),
{
    let d = rng.next();
    scaled(d, len as u64) as usize
}

/// Rolls the rarity; `None` when the weights add up past `u32::MAX`.
pub fn roll_rarity(assets: &Assets, rng: &mut Mulberry32) -> (r: Option<String>)
    ensures
        match spec_roll_rarity(assets, old(rng).state) {
            None => r is None,
            Some((rarity, s)) => r matches Some(x) && x@ == rarity && final(rng).state == s,
        },
{
    let total = match weight_total(&assets.rarity_weights) {
        Some(t) => t,
        None => return None,
    };
    let ghost s0 = rng.state;
    let draw = rng.next();
    assert((draw as nat) * (total as nat) <= 0xFFFF_FFFFnat * 0xFFFF_FFFFnat) by (nonlinear_arith)
        requires
            draw <= 0xFFFF_FFFFu32,
            total <= 0xFFFF_FFFFu32,
    ;
    let target: u128 = (draw as u128) * (total as u128);
    assert(target == (draw as nat) * (total as nat));
    let mut cum: u128 = 0;
    let mut i: usize = 0;
    let rarities = &assets.rarities;
    while i < rarities.len()
        invariant
            i <= rarities@.len(),
            rarities == &assets.rarities,
            target == (draw as nat) * (total as nat),
            cum <= (i as nat) * 0xFFFF_FFFFnat,
            draw == spec_draw(s0),
            s0 == old(rng).state,
            rng.state == spec_advance(s0),
            total == spec_weight_total(assets.rarity_weights@),
            spec_rarity_from(rarities@, assets.rarity_weights@, target as nat, 0, 0)
                == spec_rarity_from(rarities@, assets.rarity_weights@, target as nat, i as int, cum as nat),
        decreases rarities.len() - i,
    {
        let w = weight_of(&assets.rarity_weights, rarities[i].as_str());
        assert((i as nat) * 0xFFFF_FFFFnat + 0xFFFF_FFFFnat == ((i + 1) as nat) * 0xFFFF_FFFFnat) by (nonlinear_arith);
        assert((i as nat) < 0x1_0000_0000_0000_0000nat);
        assert(((i + 1) as nat) * 0xFFFF_FFFFnat <= 0x1_0000_0000_0000_0000nat * 0xFFFF_FFFFnat) by (nonlinear_arith)
            requires (i + 1) as nat <= 0x1_0000_0000_0000_0000nat;
        let ghost old_cum = cum;
        cum = cum + (w as u128);
        assert(cum as nat == old_cum as nat + spec_weight(assets.rarity_weights@, rarities@[i as int]@));
        let bound: u128 = cum * 0x1_0000_0000u128;
        if target < bound {
            assert(spec_rarity_from(rarities@, assets.rarity_weights@, target as nat, i as int, old_cum as nat)
                == rarities@[i as int]@);
            let r = rarities[i].clone();
            return Some(r);
        }
        i = i + 1;
    }
    Some("common".to_owned())
}

/// Rolls the stats for `rarity`; `None` when there are no stat names or no
/// name other than the peak's is ever drawn.
pub fn roll_stats(assets: &Assets, rng: &mut Mulberry32, rarity: &str) -> (r: Option<Stats>)
    ensures
        match spec_roll_stats(assets, rarity@, old(rng).state) {
            None => r is None,
            Some((stats, s)) => r == Some(stats) && final(rng).state == s,
        },
{
    let floor = floor_of(&assets.rarity_floor, rarity);
    let names = &assets.stat_names;
    let len = names.len();
    if len == 0 {
        return None;
    }
    let peak_i = pick(rng, len);
    let ghost s1 = rng.state;
    let mut tries: u64 = 0;
    let mut found: Option<usize> = None;
    while found.is_none() && tries < 0x1_0000_0000u64
        invariant
            names == &assets.stat_names,
            len == names@.len(),
            peak_i < len,
            tries <= 0x1_0000_0000u64,
            found is None ==> spec_dump_search(names@, names@[peak_i as int]@, s1, spec_dump_fuel())
                == spec_dump_search(names@, names@[peak_i as int]@, rng.state, (spec_dump_fuel() - tries) as nat),
            found matches Some(d) ==> d < len && spec_dump_search(names@, names@[peak_i as int]@, s1, spec_dump_fuel())
                == Some((names@[d as int]@, rng.state)),
        decreases 0x1_0000_0000u64 - tries + (if found is None { 1int } else { 0int }),
    {
        let d = pick(rng, len);
        tries = tries + 1;
        if names[d] != names[peak_i] {
            found = Some(d);
        }
    }
    let dump_i = match found {
        Some(d) => d,
        None => return None,
    };
    let ghost s2 = rng.state;
    let mut stats = Stats::default();
    let mut i: usize = 0;
    while i < len
        invariant
            names == &assets.stat_names,
            len == names@.len(),
            peak_i < len,
            dump_i < len,
            i <= len,
            (stats, rng.state) == spec_stats_fold(
                names@,
                floor,
                names@[peak_i as int]@,
                names@[dump_i as int]@,
                s2,
                i as nat,
            ),
        decreases len - i,
    {
        let draw = rng.next();
        let value = stat_value(&names[i], floor, &names[peak_i], &names[dump_i], draw);
        stats.set(names[i].as_str(), value);
        i = i + 1;
    }
    Some(stats)
}

fn stat_value(name: &String, floor: u8, peak: &String, dump: &String, draw: u32) -> (r: u8)
    ensures
        r == spec_stat_value(name@, floor, peak@, dump@, draw),
{
    if *name == *peak {
        let v: u32 = floor as u32 + 50 + scaled(draw, 30) as u32;
        let m: u32 = if v < 100 { v } else { 100 };
        m as u8
    } else if *name == *dump {
        let raw: i32 = floor as i32 - 10 + scaled(draw, 15) as i32;
        let m: i32 = if raw < 1 { 1 } else { raw };
        #[verifier::truncate]
        (m as u8)
    } else {
        let v: u32 = floor as u32 + scaled(draw, 40) as u32;
        #[verifier::truncate]
        (v as u8)
    }
}

/// The characters of the user id followed by those of the salt.
fn seed_text(user_id: &str, salt: &str) -> (r: Vec<char>)
    ensures
        r@ == user_id@ + salt@,
{
    let mut out = crate::text::chars_of(user_id);
    crate::text::push_str(&mut out, salt);
    out
}

/// Rolls the buddy for a user id and a salt, or `None` on the tables on which
/// a roll cannot finish (see `spec_roll`).
pub fn try_roll_with_salt(assets: &Assets, user_id: &str, salt: &str) -> (r: Option<Buddy>)
    ensures
        match spec_roll_with_salt(assets, user_id@, salt@) {
            None => r is None,
            Some(b) => r matches Some(x) && x@ == b,
        },
{
    reveal(spec_roll_with_salt);
    let text = seed_text(user_id, salt);
    let seed = crate::rng::hash_string(text.as_slice());
    let mut rng = Mulberry32::new(seed);
    let rarity = match roll_rarity(assets, &mut rng) {
        Some(r) => r,
        None => return None,
    };
    if assets.species.len() == 0 {
        return None;
    }
    let species = assets.species[pick(&mut rng, assets.species.len())].clone();
    if assets.eyes.len() == 0 {
        return None;
    }
    let eye = assets.eyes[pick(&mut rng, assets.eyes.len())].clone();
    let hat = if str_eq(rarity.as_str(), "common") {
        "none".to_owned()
    } else {
        if assets.hats.len() == 0 {
            return None;
        }
        assets.hats[pick(&mut rng, assets.hats.len())].clone()
    };
    let draw = rng.next();
    let shiny = (draw as u64) * 100 < 0x1_0000_0000u64;
    let stats = match roll_stats(assets, &mut rng, rarity.as_str()) {
        Some(s) => s,
        None => return None,
    };
    let inspiration = rng.next();
    let inspiration_seed = scaled(inspiration, 1_000_000_000) as u32;
    Some(Buddy { rarity, species, eye, hat, shiny, stats, inspiration_seed })
}

/// Rolls the buddy for a user id and a salt.
pub fn roll_with_salt(assets: &Assets, user_id: &str, salt: &str) -> (r: Buddy)
    requires
        spec_roll_with_salt(assets, user_id@, salt@) is Some,
    ensures
        r@ == spec_roll_with_salt(assets, user_id@, salt@)->0,
{
    let r = try_roll_with_salt(assets, user_id, salt);
    r.unwrap()
}

/// A buddy depends on the user id and the salt only through their
/// concatenation: two pairs that spell the same text roll the same buddy.
pub proof fn lemma_roll_depends_on_user_id_then_salt(
    a: &Assets,
    user_id1: Seq<char>,
    salt1: Seq<char>,
    user_id2: Seq<char>,
    salt2: Seq<char>,
)
    requires
        user_id1 + salt1 == user_id2 + salt2,
    ensures
        spec_roll_with_salt(a, user_id1, salt1) == spec_roll_with_salt(a, user_id2, salt2),
{
    reveal(spec_roll_with_salt);
}

proof fn lemma_rarity_from_drawn(
    rarities: Seq<String>,
    weights: Seq<(String, u32)>,
    target: nat,
    i: int,
    cum: nat,
)
    requires
        0 <= i,
    ensures
        spec_rarity_from(rarities, weights, target, i, cum) == "common"@ || exists|j: int|
            0 <= j < rarities.len() && rarities[j]@ == spec_rarity_from(
                rarities,
                weights,
                target,
                i,
                cum,
            ),
    decreases rarities.len() - i,
{
    if i < rarities.len() {
        let c = cum + spec_weight(weights, rarities[i]@);
        if !(target < c * 0x1_0000_0000) {
            lemma_rarity_from_drawn(rarities, weights, target, i + 1, c);
        }
    }
}

/// Every part of a rolled buddy comes from the tables: the rarity is one of
/// the rarities or `"common"`, the species one of the species, the eye one of
/// the eyes; a common buddy wears `"none"` and any other one of the hats; the
/// inspiration seed is below one billion.
pub proof fn lemma_roll_draws_from_tables(a: &Assets, seed: u32)
    requires
        spec_roll(a, seed) is Some,
    ensures
        ({
            let b = spec_roll(a, seed)->0;
            &&& b.rarity == "common"@ || exists|i: int|
                0 <= i < a.rarities@.len() && a.rarities@[i]@ == b.rarity
            &&& exists|i: int| 0 <= i < a.species@.len() && a.species@[i]@ == b.species
            &&& exists|i: int| 0 <= i < a.eyes@.len() && a.eyes@[i]@ == b.eye
            &&& b.rarity == "common"@ ==> b.hat == "none"@
            &&& b.rarity != "common"@ ==> exists|i: int|
                0 <= i < a.hats@.len() && a.hats@[i]@ == b.hat
            &&& b.inspiration_seed < 1_000_000_000
        }),
{
    let total = spec_weight_total(a.rarity_weights@);
    let (rarity, s1) = spec_roll_rarity(a, seed)->0;
    lemma_rarity_from_drawn(a.rarities@, a.rarity_weights@, (spec_draw(seed) as nat) * total, 0, 0);
    let (species, s2) = spec_pick(a.species@, s1)->0;
    let k1 = spec_scaled(spec_draw(s1), a.species@.len());
    lemma_scaled_below(spec_draw(s1), a.species@.len());
    assert(a.species@[k1 as int]@ == species);
    let (eye, s3) = spec_pick(a.eyes@, s2)->0;
    let k2 = spec_scaled(spec_draw(s2), a.eyes@.len());
    lemma_scaled_below(spec_draw(s2), a.eyes@.len());
    assert(a.eyes@[k2 as int]@ == eye);
    if rarity != "common"@ {
        let k3 = spec_scaled(spec_draw(s3), a.hats@.len());
        lemma_scaled_below(spec_draw(s3), a.hats@.len());
        let (h, _) = spec_roll_hat(a, rarity, s3)->0;
        assert(a.hats@[k3 as int]@ == h);
    }
    let (hat, s4) = spec_roll_hat(a, rarity, s3)->0;
    let (stats, s6) = spec_roll_stats(a, rarity, spec_advance(s4))->0;
    lemma_scaled_below(spec_draw(s6), 1_000_000_000);
}

/// The weight of the rarities below rung `i` of the ladder, added up.
pub open spec fn spec_cum_weight(rarities: Seq<String>, weights: Seq<(String, u32)>, i: nat) -> nat
    decreases i,
{
    if i == 0 || i > rarities.len() {
        0
    } else {
        spec_cum_weight(rarities, weights, (i - 1) as nat) + spec_weight(weights, rarities[i - 1]@)
    }
}

proof fn lemma_cum_weight_mono(rarities: Seq<String>, weights: Seq<(String, u32)>, j: nat, i: nat)
    requires
        j <= i <= rarities.len(),
    ensures
        spec_cum_weight(rarities, weights, j) <= spec_cum_weight(rarities, weights, i),
    decreases i,
{
    if j < i {
        lemma_cum_weight_mono(rarities, weights, j, (i - 1) as nat);
    }
}

proof fn lemma_rarity_rung_from(
    rarities: Seq<String>,
    weights: Seq<(String, u32)>,
    target: nat,
    i: nat,
    j: nat,
)
    requires
        j <= i < rarities.len(),
        spec_cum_weight(rarities, weights, i) * 0x1_0000_0000 <= target,
        target < (spec_cum_weight(rarities, weights, i) + spec_weight(weights, rarities[i as int]@))
            * 0x1_0000_0000,
    ensures
        spec_rarity_from(rarities, weights, target, j as int, spec_cum_weight(rarities, weights, j))
            == rarities[i as int]@,
    decreases i - j,
{
    if j < i {
        lemma_cum_weight_mono(rarities, weights, j + 1, i);
        assert(spec_cum_weight(rarities, weights, j + 1) == spec_cum_weight(rarities, weights, j)
            + spec_weight(weights, rarities[j as int]@));
        lemma_rarity_rung_from(rarities, weights, target, i, j + 1);
    }
}

/// Every rung of the rarity ladder is reached, the last included: a draw
/// whose target falls in rung `i`'s share of the total weight (past the
/// weights of the rungs below it and within its own weight) rolls
/// `rarities[i]`, and the draw advances the generator once.
pub proof fn lemma_roll_rarity_reaches_rung(a: &Assets, state: u32, i: nat)
    requires
        spec_weight_total(a.rarity_weights@) <= u32::MAX,
        i < a.rarities@.len(),
        spec_cum_weight(a.rarities@, a.rarity_weights@, i) * 0x1_0000_0000 <= (spec_draw(state) as nat)
            * spec_weight_total(a.rarity_weights@),
        (spec_draw(state) as nat) * spec_weight_total(a.rarity_weights@) < (spec_cum_weight(
            a.rarities@,
            a.rarity_weights@,
            i,
        ) + spec_weight(a.rarity_weights@, a.rarities@[i as int]@)) * 0x1_0000_0000,
    ensures
        spec_roll_rarity(a, state) == Some((a.rarities@[i as int]@, spec_advance(state))),
{
    let target = (spec_draw(state) as nat) * spec_weight_total(a.rarity_weights@);
    lemma_rarity_rung_from(a.rarities@, a.rarity_weights@, target, i, 0);
}

/// The range of a rolled stat value (for a rarity floor of at most 50): the
/// peak stat lies between `min(floor + 50, 100)` and 100, the dump stat
/// between 1 and `max(floor + 4, 1)`, any other between `floor` and
/// `floor + 39`.
pub proof fn lemma_stat_value_range(name: Seq<char>, floor: u8, peak: Seq<char>, dump: Seq<char>, draw: u32)
    requires
        floor <= 50,
    ensures
        ({
            let v = spec_stat_value(name, floor, peak, dump, draw);
            &&& name == peak ==> (if floor + 50 < 100 { floor + 50 } else { 100 }) <= v <= 100
            &&& name != peak && name == dump ==> 1 <= v && (v <= floor + 4 || v == 1)
            &&& name != peak && name != dump ==> floor <= v <= floor + 39
        }),
{
    lemma_scaled_below(draw, 30);
    lemma_scaled_below(draw, 15);
    lemma_scaled_below(draw, 40);
}

proof fn lemma_stats_fold_at_most_100(
    names: Seq<String>,
    floor: u8,
    peak: Seq<char>,
    dump: Seq<char>,
    state: u32,
    n: nat,
)
    requires
        floor <= 50,
    ensures
        ({
            let st = spec_stats_fold(names, floor, peak, dump, state, n).0;
            st.debugging <= 100 && st.patience <= 100 && st.chaos <= 100 && st.wisdom <= 100
                && st.snark <= 100
        }),
    decreases n,
{
    if n > 0 && n <= names.len() {
        lemma_stats_fold_at_most_100(names, floor, peak, dump, state, (n - 1) as nat);
        let prev = spec_stats_fold(names, floor, peak, dump, state, (n - 1) as nat);
        lemma_stat_value_range(names[n - 1]@, floor, peak, dump, spec_draw(prev.1));
    }
}

proof fn lemma_floor_lookup_bound(entries: Seq<(String, u8)>, key: Seq<char>)
    requires
        forall|j: int| 0 <= j < entries.len() ==> (#[trigger] entries[j]).1 <= 50,
    ensures
        spec_lookup(entries, key) matches Some(f) ==> f <= 50,
    decreases entries.len(),
{
    if entries.len() > 0 {
        assert(entries[0].1 <= 50);
        assert forall|j: int| 0 <= j < entries.drop_first().len() implies (#[trigger] entries.drop_first()[j]).1
            <= 50 by {
            assert(entries.drop_first()[j] == entries[j + 1]);
        }
        lemma_floor_lookup_bound(entries.drop_first(), key);
    }
}

/// No stat of a rolled buddy exceeds 100 when no rarity floor exceeds 50.
pub proof fn lemma_rolled_stats_at_most_100(a: &Assets, user_id: Seq<char>, salt: Seq<char>)
    requires
        spec_roll_with_salt(a, user_id, salt) is Some,
        forall|j: int| 0 <= j < a.rarity_floor@.len() ==> (#[trigger] a.rarity_floor@[j]).1 <= 50,
    ensures
        ({
            let st = spec_roll_with_salt(a, user_id, salt)->0.stats;
            st.debugging <= 100 && st.patience <= 100 && st.chaos <= 100 && st.wisdom <= 100
                && st.snark <= 100
        }),
{
    reveal(spec_roll_with_salt);
    let seed = spec_seed(user_id, salt);
    let (rarity, s1) = spec_roll_rarity(a, seed)->0;
    let (species, s2) = spec_pick(a.species@, s1)->0;
    let (eye, s3) = spec_pick(a.eyes@, s2)->0;
    let (hat, s4) = spec_roll_hat(a, rarity, s3)->0;
    let state = spec_advance(s4);
    lemma_floor_lookup_bound(a.rarity_floor@, rarity);
    let floor = match spec_lookup(a.rarity_floor@, rarity) {
        Some(f) => f,
        None => 0u8,
    };
    let names = a.stat_names@;
    let (peak, t1) = spec_pick(names, state)->0;
    let (dump, t2) = spec_dump_search(names, peak, t1, spec_dump_fuel())->0;
    lemma_stats_fold_at_most_100(names, floor, peak, dump, t2, names.len());
}

/// A scaled draw is below the scale.
pub proof fn lemma_scaled_below(draw: u32, n: nat)
    requires
        n > 0,
    ensures
        spec_scaled(draw, n) < n,
{
    assert((draw as nat) * n < 0x1_0000_0000 * n) by (nonlinear_arith)
        requires
            draw < 0x1_0000_0000,
            n > 0,
    ;
    assert(((draw as nat) * n) / 0x1_0000_0000 < n) by (nonlinear_arith)
        requires
            (draw as nat) * n < 0x1_0000_0000 * n,
    ;
}

/// The salt a buddy is rolled with when none is given.
pub fn default_salt(assets: &Assets) -> (r: &str)
    ensures
        r@ == assets.default_salt@,
{
    assets.default_salt.as_str()
}

/// What reading one candidate config file gave.
#[derive(Clone, Debug, PartialEq, Eq)]
pub enum ConfigFile {
    /// The file does not exist.
    Missing,
    /// The file exists but could not be read; the error's text.
    Unreadable(String),
    /// The file's text.
    Text(String),
}

/// What a config file's text holds: not JSON, or JSON with the strings found
/// at `oauthAccount.accountUuid` and `userID` (each `None` where there is no
/// string).
#[derive(Clone, Debug, PartialEq, Eq)]
pub enum ConfigContent {
    Unparsable,
    Parsed { account_uuid: Option<String>, user_id: Option<String> },
}

/// The views of an optional string.
pub open spec fn spec_opt_chars(value: Option<String>) -> Option<Seq<char>> {
    match value {
        Some(v) => Some(v@),
        None => None,
    }
}

/// What a config file's text holds, as `serde_json` reads it: `None` when it
/// is not JSON, else the strings at `oauthAccount.accountUuid` and `userID`.
pub uninterp spec fn spec_config_ids(text: Seq<char>) -> Option<(Option<Seq<char>>, Option<Seq<char>>)>;

/// The ids a parsed config holds, seen as character sequences.
pub open spec fn spec_content_ids(content: ConfigContent) -> Option<(Option<Seq<char>>, Option<Seq<char>>)> {
    match content {
        ConfigContent::Unparsable => None,
        ConfigContent::Parsed { account_uuid, user_id } => Some(
            (spec_opt_chars(account_uuid), spec_opt_chars(user_id)),
        ),
    }
}

/// Reads a config file's text as JSON.
///
/// Calls `serde_json::from_str::<serde_json::Value>` and picks the string at
/// `oauthAccount.accountUuid` and the one at `userID` (`Value::get`,
/// `Value::as_str`). The result is named `spec_config_ids` of the text; how
/// JSON is read is not stated here.
#[verifier::external_body]
fn parse_config(text: &str) -> (r: ConfigContent)
    ensures
        spec_content_ids(r) == spec_config_ids(text@),
{
    match serde_json::from_str::<serde_json::Value>(text) {
        Err(_) => ConfigContent::Unparsable,
        Ok(config) => ConfigContent::Parsed {
            account_uuid: config.get("oauthAccount").and_then(|e| e.get("accountUuid")).and_then(
                serde_json::Value::as_str,
            ).map(str::to_string),
            user_id: config.get("userID").and_then(serde_json::Value::as_str).map(str::to_string),
        },
    }
}

/// The user id a config gives: its non-empty `accountUuid`, else its
/// non-empty `userID`; none for text that is not JSON.
pub open spec fn spec_config_user_id(ids: Option<(Option<Seq<char>>, Option<Seq<char>>)>) -> Option<Seq<char>> {
    match ids {
        None => None,
        Some((a, u)) => match a {
            Some(x) if x.len() > 0 => Some(x),
            _ => match u {
                Some(y) if y.len() > 0 => Some(y),
                _ => None,
            },
        },
    }
}

/// A candidate config file: its path as shown and what reading it gave.
#[derive(Clone, Debug, PartialEq, Eq)]
pub struct ConfigCandidate {
    pub path: String,
    pub file: ConfigFile,
}

/// The strings joined with a separator between them.
pub open spec fn spec_join(parts: Seq<Seq<char>>, sep: Seq<char>) -> Seq<char>
    decreases parts.len(),
{
    if parts.len() == 0 {
        Seq::empty()
    } else if parts.len() == 1 {
        parts[0]
    } else {
        spec_join(parts.drop_last(), sep) + sep + parts.last()
    }
}

/// The message when no candidate gives a user id.
pub open spec fn spec_no_user_id(candidates: Seq<ConfigCandidate>) -> Seq<char> {
    "Could not detect userId from "@ + spec_join(
        candidates.map_values(|c: ConfigCandidate| c.path@),
        ", "@,
    )
}

/// The user id of the candidates from `i` on: a missing file, or one whose
/// text gives no user id, is skipped; an unreadable one is an error.
pub open spec fn spec_user_id_from(candidates: Seq<ConfigCandidate>, i: nat) -> Result<Seq<char>, Seq<char>>
    decreases candidates.len() - i,
{
    if i >= candidates.len() {
        Err(spec_no_user_id(candidates))
    } else {
        match candidates[i as int].file {
            ConfigFile::Missing => spec_user_id_from(candidates, i + 1),
            ConfigFile::Unreadable(e) => Err(e@),
            ConfigFile::Text(t) => match spec_config_user_id(spec_config_ids(t@)) {
                Some(id) => Ok(id),
                None => spec_user_id_from(candidates, i + 1),
            },
        }
    }
}

fn non_empty_string(value: &Option<String>) -> (r: Option<String>)
    ensures
        match *value {
            Some(v) => if v@.len() > 0 {
                r matches Some(x) && x@ == v@
            } else {
                r is None
            },
            None => r is None,
        },
{
    match value {
        Some(v) => if v.as_str().is_empty() {
            None
        } else {
            Some(v.clone())
        },
        None => None,
    }
}

/// The user id a parsed config gives.
pub fn config_user_id(content: &ConfigContent) -> (r: Option<String>)
    ensures
        spec_opt_chars(r) == spec_config_user_id(spec_content_ids(*content)),
{
    match content {
        ConfigContent::Unparsable => None,
        ConfigContent::Parsed { account_uuid, user_id } => match non_empty_string(account_uuid) {
            Some(a) => Some(a),
            None => non_empty_string(user_id),
        },
    }
}

/// Detects the user id from the candidate config files, in order.
pub fn detect_user_id(candidates: &Vec<ConfigCandidate>) -> (r: Result<String, String>)
    ensures
        match spec_user_id_from(candidates@, 0) {
            Ok(u) => r matches Ok(x) && x@ == u,
            Err(e) => r matches Err(m) && m@ == e,
        },
{
    let mut i: usize = 0;
    while i < candidates.len()
        invariant
            i <= candidates@.len(),
            spec_user_id_from(candidates@, 0) == spec_user_id_from(candidates@, i as nat),
        decreases candidates.len() - i,
    {
        match &candidates[i].file {
            ConfigFile::Missing => {},
            ConfigFile::Unreadable(e) => {
                return Err(e.clone());
            },
            ConfigFile::Text(t) => {
                let content = parse_config(t.as_str());
                match config_user_id(&content) {
                    Some(id) => {
                        return Ok(id);
                    },
                    None => {},
                }
            },
        }
        i = i + 1;
    }
    let ghost paths = candidates@.map_values(|c: ConfigCandidate| c.path@);
    let mut out: Vec<char> = Vec::new();
    crate::text::push_str(&mut out, "Could not detect userId from ");
    let ghost start = out@;
    let mut k: usize = 0;
    while k < candidates.len()
        invariant
            k <= candidates@.len(),
            paths == candidates@.map_values(|c: ConfigCandidate| c.path@),
            out@ == start + spec_join(paths.subrange(0, k as int), ", "@),
        decreases candidates.len() - k,
    {
        assert(paths.subrange(0, k + 1).drop_last() =~= paths.subrange(0, k as int));
        if k > 0 {
            crate::text::push_str(&mut out, ", ");
        } else {
            assert(paths.subrange(0, 0).len() == 0);
        }
        crate::text::push_str(&mut out, candidates[k].path.as_str());
        k = k + 1;
        assert(out@ =~= start + spec_join(paths.subrange(0, k as int), ", "@));
    }
    assert(paths.subrange(0, candidates@.len() as int) =~= paths);
    Err(crate::text::string_of(out.as_slice()))
}

/// The name upper-cased as `str::to_uppercase` does (by Unicode case mapping).
pub uninterp spec fn spec_to_uppercase(s: Seq<char>) -> Seq<char>;

/// Upper-cases a string.
///
/// Calls `str::to_uppercase`; the result is named `spec_to_uppercase` of the
/// text, a function of the text alone (the mapping does not depend on a
/// locale). What the mapping is is not stated here.
#[verifier::external_body]
fn to_uppercase(s: &str) -> (r: String)
    ensures
        r@ == spec_to_uppercase(s@),
{
    s.to_uppercase()
}

/// The message for an invalid stat threshold.
pub open spec fn spec_invalid_min_stat(value: Seq<char>) -> Seq<char> {
    "Invalid min stat value: "@ + value
}

/// The two first `:`-separated fields of `value` (at most three are split
/// off): the text before the first `:` (all of it when there is none) and the
/// text after it up to a second `:` (empty when there is no `:`).
pub open spec fn spec_min_stat_fields(value: Seq<char>) -> (Seq<char>, Seq<char>) {
    match crate::parse::spec_find_char(value, ':', 0) {
        None => (value, Seq::empty()),
        Some(i) => match crate::parse::spec_find_char(value, ':', i + 1) {
            None => (value.subrange(0, i as int), value.subrange((i + 1) as int, value.len() as int)),
            Some(j) => (value.subrange(0, i as int), value.subrange((i + 1) as int, j as int)),
        },
    }
}

/// A threshold's upper-cased stat name checked against the stat names: the
/// name and the text of the value when it is one of them, else the error for
/// the whole threshold text `value`.
pub open spec fn spec_checked_stat_name(
    name: Seq<char>,
    threshold: Seq<char>,
    value: Seq<char>,
    stat_names: Seq<Seq<char>>,
) -> Result<Option<(Seq<char>, Seq<char>)>, Seq<char>> {
    if stat_names.contains(name) {
        Ok(Some((name, threshold)))
    } else {
        Err(spec_invalid_min_stat(value))
    }
}

/// The stat name of a threshold `NAME:value`, trimmed and upper-cased, with
/// the text of its value; `None` for an empty text; an error when the name is
/// not one of `stat_names` (the value is read as a number by the caller).
pub open spec fn spec_min_stat_name(value: Seq<char>, stat_names: Seq<Seq<char>>) -> Result<
    Option<(Seq<char>, Seq<char>)>,
    Seq<char>,
> {
    if value.len() == 0 {
        Ok(None)
    } else {
        let (raw_name, raw_threshold) = spec_min_stat_fields(value);
        spec_checked_stat_name(
            spec_to_uppercase(crate::parse::spec_trim(raw_name)),
            raw_threshold,
            value,
            stat_names,
        )
    }
}

/// Checks a threshold's upper-cased stat name against the stat names; `value`
/// is the whole threshold text, quoted in the error.
pub fn check_stat_name(name: String, threshold: String, value: &str, stat_names: &Vec<String>) -> (r: Result<
    Option<(String, String)>,
    String,
>)
    ensures
        match spec_checked_stat_name(name@, threshold@, value@, crate::assets::spec_strings(stat_names@)) {
            Ok(None) => r matches Ok(None),
            Ok(Some((n, t))) => r matches Ok(Some((a, b))) && a@ == n && b@ == t,
            Err(e) => r matches Err(m) && m@ == e,
        },
{
    let ghost names = crate::assets::spec_strings(stat_names@);
    let mut k: usize = 0;
    while k < stat_names.len()
        invariant
            k <= stat_names@.len(),
            names == crate::assets::spec_strings(stat_names@),
            forall|m: int| 0 <= m < k ==> names[m] != name@,
        decreases stat_names.len() - k,
    {
        assert(names[k as int] == stat_names@[k as int]@);
        if stat_names[k] == name {
            assert(names.contains(name@));
            return Ok(Some((name, threshold)));
        }
        k = k + 1;
    }
    let mut out: Vec<char> = Vec::new();
    crate::text::push_str(&mut out, "Invalid min stat value: ");
    crate::text::push_str(&mut out, value);
    Err(crate::text::string_of(out.as_slice()))
}

/// Reads the stat name of a threshold `NAME:value` and checks it against the
/// stat names; the value's text is returned for the caller to read as a number.
pub fn parse_min_stat_name(value: &str, stat_names: &Vec<String>) -> (r: Result<Option<(String, String)>, String>)
    ensures
        match spec_min_stat_name(value@, crate::assets::spec_strings(stat_names@)) {
            Ok(None) => r matches Ok(None),
            Ok(Some((n, t))) => r matches Ok(Some((a, b))) && a@ == n && b@ == t,
            Err(e) => r matches Err(m) && m@ == e,
        },
{
    if value.is_empty() {
        return Ok(None);
    }
    let cs = crate::text::chars_of(value);
    let s = cs.as_slice();
    assert(s@.len() == s.len());
    let (name_end, threshold) = match crate::parse::find_char(s, ':', 0) {
        None => {
            assert(s@.subrange(0, s@.len() as int) =~= s@);
            (s.len(), Vec::new())
        },
        Some(i) => match crate::parse::find_char(s, ':', i + 1) {
            None => (i, crate::parse::slice_range(s, i + 1, s.len())),
            Some(j) => (i, crate::parse::slice_range(s, i + 1, j)),
        },
    };
    assert(spec_min_stat_fields(value@) == (s@.subrange(0, name_end as int), threshold@));
    let (a, b) = crate::parse::trim_chars(s, 0, name_end);
    let trimmed = crate::text::string_of(crate::parse::slice_range(s, a, b).as_slice());
    let name = to_uppercase(trimmed.as_str());
    check_stat_name(name, crate::text::string_of(threshold.as_slice()), value, stat_names)
}

} // verus!
