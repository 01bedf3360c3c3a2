use vstd::prelude::*;

verus! {

/// The constant that advances the generator's state on every draw.
pub const STATE_INCREMENT: u32 = 0x6d2b79f5;

/// The state after one draw.
pub open spec fn spec_advance(state: u32) -> u32 {
    vstd::wrapping::u32_specs::wrapping_add(state, STATE_INCREMENT)
}

/// The 32-bit output that a draw yields from the state it has just advanced to.
pub open spec fn spec_mix(s: u32) -> u32 {
    let t1 = vstd::wrapping::u32_specs::wrapping_mul(s ^ (s >> 15u32), 1u32 | s);
    let t2 = t1 ^ vstd::wrapping::u32_specs::wrapping_add(
        t1,
        vstd::wrapping::u32_specs::wrapping_mul(t1 ^ (t1 >> 7u32), 61u32 | t1),
    );
    t2 ^ (t2 >> 14u32)
}

/// The output of the draw made from `state`.
pub open spec fn spec_draw(state: u32) -> u32 {
    spec_mix(spec_advance(state))
}

/// The state after `k` draws from `state`.
pub open spec fn spec_advance_by(state: u32, k: nat) -> u32
    decreases k,
{
    if k == 0 {
        state
    } else {
        spec_advance(spec_advance_by(state, (k - 1) as nat))
    }
}

/// A draw read as a fraction of one, scaled by `n` and rounded down:
/// `floor(draw / 2^32 * n)`.
pub open spec fn spec_scaled(draw: u32, n: nat) -> nat {
    ((draw as nat) * n) / 0x1_0000_0000nat
}

/// The Mulberry32 generator: a 32-bit state and a mixing function.
pub struct Mulberry32 {
    pub state: u32,
}

impl Mulberry32 {
    /// A generator seeded with `seed`.
    pub fn new(seed: u32) -> (r: Self)
        ensures
            r.state == seed,
    {
        Mulberry32 { state: seed }
    }

    /// Advances the state and returns the 32-bit output; the output divided by
    /// `2^32` is the draw in `[0, 1)`.
    pub fn next(&mut self) -> (r: u32)
        ensures
            final(self).state == spec_advance(old(self).state),
            r == spec_draw(old(self).state),
    {
        self.state = self.state.wrapping_add(STATE_INCREMENT);
        let s = self.state;
        let t1 = (s ^ (s >> 15u32)).wrapping_mul(1u32 | s);
        let t2 = t1 ^ t1.wrapping_add((t1 ^ (t1 >> 7u32)).wrapping_mul(61u32 | t1));
        t2 ^ (t2 >> 14u32)
    }
}

/// `floor(draw / 2^32 * n)` for a draw and a count.
pub fn scaled(draw: u32, n: u64) -> (r: u64)
    ensures
        r == spec_scaled(draw, n as nat),
        n > 0 ==> r < n,
{
    assert((draw as nat) * (n as nat) <= 0xFFFF_FFFFnat * 0xFFFF_FFFF_FFFF_FFFFnat) by (nonlinear_arith)
        requires
            draw <= 0xFFFF_FFFF,
            n <= 0xFFFF_FFFF_FFFF_FFFF,
    ;
    let p: u128 = (draw as u128) * (n as u128);
    let q: u128 = p >> 32u32;
    assert(q == p / 0x1_0000_0000) by (bit_vector)
        requires
            q == p >> 32u32,
    ;
    assert((draw as nat) * (n as nat) < 0x1_0000_0000 * (n as nat) || n == 0) by (nonlinear_arith)
        requires
            draw < 0x1_0000_0000,
    ;
    assert(q <= n && (n > 0 ==> q < n)) by (nonlinear_arith)
        requires
            q == ((draw as nat) * (n as nat)) / 0x1_0000_0000,
            draw < 0x1_0000_0000,
    ;
    q as u64
}

/// 32-bit FNV-1a over a sequence of UTF-16 code units, from `hash`.
pub open spec fn spec_fnv1a_from(hash: u32, units: Seq<u16>) -> u32
    decreases units.len(),
{
    if units.len() == 0 {
        hash
    } else {
        spec_fnv1a_from(
            vstd::wrapping::u32_specs::wrapping_mul(hash ^ (units[0] as u32), 16777619u32),
            units.drop_first(),
        )
    }
}

/// The FNV-1a offset basis.
pub const FNV_OFFSET_BASIS: u32 = 2166136261;

/// The UTF-16 code units of one character.
pub open spec fn spec_utf16_of(c: char) -> Seq<u16> {
    let v = c as u32;
    if v < 0x10000 {
        seq![v as u16]
    } else {
        let w = (v - 0x10000) as u32;
        seq![(0xD800 + (w >> 10u32)) as u16, (0xDC00 + (w & 0x3FFu32)) as u16]
    }
}

/// The UTF-16 encoding of a character sequence.
pub open spec fn spec_utf16(s: Seq<char>) -> Seq<u16>
    decreases s.len(),
{
    if s.len() == 0 {
        Seq::empty()
    } else {
        spec_utf16(s.drop_last()) + spec_utf16_of(s.last())
    }
}

/// The hash that seeds the generator: FNV-1a over the UTF-16 code units.
pub open spec fn spec_hash(s: Seq<char>) -> u32 {
    spec_fnv1a_from(FNV_OFFSET_BASIS, spec_utf16(s))
}

proof fn lemma_fnv1a_append(hash: u32, a: Seq<u16>, b: Seq<u16>)
    ensures
        spec_fnv1a_from(hash, a + b) == spec_fnv1a_from(spec_fnv1a_from(hash, a), b),
    decreases a.len(),
{
    if a.len() > 0 {
        let h1 = vstd::wrapping::u32_specs::wrapping_mul(hash ^ (a[0] as u32), 16777619u32);
        assert((a + b).drop_first() =~= a.drop_first() + b);
        lemma_fnv1a_append(h1, a.drop_first(), b);
    } else {
        assert(a + b =~= b);
    }
}

fn fnv_step(hash: u32, unit: u16) -> (r: u32)
    ensures
        r == spec_fnv1a_from(hash, seq![unit]),
{
    let r = (hash ^ (unit as u32)).wrapping_mul(16777619u32);
    assert(seq![unit].drop_first() =~= Seq::<u16>::empty());
    reveal_with_fuel(spec_fnv1a_from, 2);
    r
}

/// Hashes a character sequence as the generator's seed.
pub fn hash_string(value: &[char]) -> (r: u32)
    ensures
        r == spec_hash(value@),
{
    let mut hash: u32 = FNV_OFFSET_BASIS;
    let mut i: usize = 0;
    while i < value.len()
        invariant
            i <= value.len(),
            hash == spec_fnv1a_from(FNV_OFFSET_BASIS, spec_utf16(value@.subrange(0, i as int))),
        decreases value.len() - i,
    {
        let c = value[i];
        let v = c as u32;
        proof { vstd::utf8::char_is_scalar(c); }
        assert(v <= 0x10FFFF);
        let ghost prev = value@.subrange(0, i as int);
        let ghost next = value@.subrange(0, i + 1);
        assert(next.drop_last() =~= prev);
        assert(next.last() == c);
        proof {
            lemma_fnv1a_append(FNV_OFFSET_BASIS, spec_utf16(prev), spec_utf16_of(c));
        }
        if v < 0x10000 {
            hash = fnv_step(hash, v as u16);
        } else {
            let w: u32 = v - 0x10000;
            assert(w >> 10u32 < 0x400 && (w & 0x3FFu32) < 0x400) by (bit_vector)
                requires
                    w < 0x100000,
            ;
            let hi: u16 = (0xD800u32 + (w >> 10u32)) as u16;
            let lo: u16 = (0xDC00u32 + (w & 0x3FFu32)) as u16;
            let h1 = fnv_step(hash, hi);
            proof {
                lemma_fnv1a_append(hash, seq![hi], seq![lo]);
                assert(seq![hi] + seq![lo] =~= spec_utf16_of(c));
            }
            hash = fnv_step(h1, lo);
        }
        i = i + 1;
    }
    assert(value@.subrange(0, value.len() as int) =~= value@);
    hash
}

} // verus!
