use vstd::prelude::*;
use crate::assets::{find_key, spec_lookup, spec_strings, Assets};
use crate::buddy::{Buddy, BuddyView};
use crate::text::{chars_of, is_blank, push_str, spec_is_blank, str_eq, string_of};

verus! {

/// `s[i..]` with every occurrence of `pat` replaced by `rep`, scanning left to
/// right and resuming after each replaced occurrence; an empty `pat` matches
/// before every character and at the end.
pub open spec fn spec_replace_from(s: Seq<char>, pat: Seq<char>, rep: Seq<char>, i: nat) -> Seq<char>
    decreases s.len() - i,
{
    if pat.len() == 0 {
        if i >= s.len() {
            rep
        } else {
            rep + seq![s[i as int]] + spec_replace_from(s, pat, rep, i + 1)
        }
    } else if i >= s.len() {
        Seq::empty()
    } else if i + pat.len() <= s.len() && s.subrange(i as int, (i + pat.len()) as int) == pat {
        rep + spec_replace_from(s, pat, rep, i + pat.len())
    } else {
        seq![s[i as int]] + spec_replace_from(s, pat, rep, i + 1)
    }
}

/// `s` with every occurrence of `pat` replaced by `rep`, as `str::replace` does.
pub open spec fn spec_replace(s: Seq<char>, pat: Seq<char>, rep: Seq<char>) -> Seq<char> {
    spec_replace_from(s, pat, rep, 0)
}

fn matches_at(s: &[char], pat: &[char], i: usize) -> (r: bool)
    requires
        i <= s@.len(),
    ensures
        r == (i + pat@.len() <= s@.len() && s@.subrange(i as int, i + pat@.len()) == pat@),
{
    if pat.len() > s.len() - i {
        return false;
    }
    let mut k: usize = 0;
    while k < pat.len()
        invariant
            k <= pat@.len(),
            i + pat@.len() <= s@.len(),
            s@.len() == s.len(),
            forall|j: int| 0 <= j < k ==> s@[i + j] == pat@[j],
        decreases pat.len() - k,
    {
        if s[i + k] != pat[k] {
            assert(s@.subrange(i as int, i + pat@.len())[k as int] != pat@[k as int]);
            return false;
        }
        k = k + 1;
    }
    assert(s@.subrange(i as int, i + pat@.len()) =~= pat@);
    true
}

/// Replaces every occurrence of `pat` in `s` with `rep`.
pub fn replace_chars(s: &[char], pat: &[char], rep: &[char]) -> (r: Vec<char>)
    ensures
        r@ == spec_replace(s@, pat@, rep@),
{
    let mut out: Vec<char> = Vec::new();
    let mut i: usize = 0;
    while i < s.len()
        invariant
            i <= s@.len(),
            out@ + spec_replace_from(s@, pat@, rep@, i as nat) == spec_replace(s@, pat@, rep@),
        decreases s.len() - i,
    {
        let ghost old_out = out@;
        let ghost old_i = i;
        if pat.len() == 0 {
            append_chars(&mut out, rep);
            out.push(s[i]);
            i = i + 1;
            assert(out@ =~= old_out + (rep@ + seq![s@[old_i as int]]));
        } else if matches_at(s, pat, i) {
            append_chars(&mut out, rep);
            i = i + pat.len();
        } else {
            out.push(s[i]);
            i = i + 1;
            assert(out@ =~= old_out + seq![s@[old_i as int]]);
        }
        assert(old_out + spec_replace_from(s@, pat@, rep@, old_i as nat) =~= out@
            + spec_replace_from(s@, pat@, rep@, i as nat));
    }
    if pat.len() == 0 {
        append_chars(&mut out, rep);
    }
    assert(out@ =~= spec_replace(s@, pat@, rep@));
    out
}

fn append_chars(out: &mut Vec<char>, more: &[char])
    ensures
        final(out)@ == old(out)@ + more@,
{
    let mut k: usize = 0;
    while k < more.len()
        invariant
            k <= more@.len(),
            out@ == old(out)@ + more@.subrange(0, k as int),
        decreases more.len() - k,
    {
        out.push(more[k]);
        k = k + 1;
        assert(out@ =~= old(out)@ + more@.subrange(0, k as int));
    }
    assert(more@.subrange(0, more@.len() as int) =~= more@);
}

/// Replaces every occurrence of `pat` in a string with `rep`.
pub fn replace_str(s: &str, pat: &str, rep: &str) -> (r: String)
    ensures
        r@ == spec_replace(s@, pat@, rep@),
{
    let sc = chars_of(s);
    let pc = chars_of(pat);
    let rc = chars_of(rep);
    let out = replace_chars(sc.as_slice(), pc.as_slice(), rc.as_slice());
    string_of(out.as_slice())
}

/// The species has sprite frames, at least one.
pub open spec fn spec_has_body(a: &Assets, species: Seq<char>) -> bool {
    match spec_lookup(a.bodies@, species) {
        Some(frames) => frames@.len() > 0,
        None => false,
    }
}

/// The species has a list of sprite frames (perhaps empty).
pub open spec fn spec_has_frames(a: &Assets, species: Seq<char>) -> bool {
    spec_lookup(a.bodies@, species) is Some
}

/// The sprite frames of a species that has them.
pub open spec fn spec_frames(a: &Assets, species: Seq<char>) -> Seq<Vec<String>> {
    spec_lookup(a.bodies@, species)->0@
}

/// Every frame starts with a blank line.
pub open spec fn spec_all_first_lines_blank(frames: Seq<Vec<String>>) -> bool {
    forall|j: int| 0 <= j < frames.len() ==> {
        &&& (#[trigger] frames[j])@.len() > 0
        &&& spec_is_blank(frames[j]@[0]@)
    }
}

/// Frame `frame` (taken modulo the number of frames) of a buddy's sprite: the
/// species' frame with `{E}` replaced by the eye; a blank first line becomes
/// the hat's line when the buddy wears a hat that has one; a first line still
/// blank is dropped when every frame of the species starts with a blank line.
pub open spec fn spec_render_sprite(a: &Assets, b: BuddyView, frame: nat) -> Seq<Seq<char>> {
    let frames = spec_frames(a, b.species);
    let body = frames[(frame % frames.len()) as int]@;
    let lines0 = spec_strings(body).map_values(|l: Seq<char>| spec_replace(l, "{E}"@, b.eye));
    let lines1 = if b.hat != "none"@ && lines0.len() > 0 && spec_is_blank(lines0[0])
        && spec_lookup(a.hat_lines@, b.hat) is Some {
        lines0.update(0, spec_lookup(a.hat_lines@, b.hat)->0@)
    } else {
        lines0
    };
    if lines1.len() > 0 && spec_is_blank(lines1[0]) && spec_all_first_lines_blank(frames) {
        lines1.drop_first()
    } else {
        lines1
    }
}

/// A sprite's frames repeat: frame `f + n` of a species with `n` frames is
/// frame `f`.
pub proof fn lemma_render_sprite_wraps(a: &Assets, b: BuddyView, f: nat)
    requires
        spec_has_body(a, b.species),
    ensures
        spec_render_sprite(a, b, f + spec_frames(a, b.species).len()) == spec_render_sprite(a, b, f),
{
    let n = spec_frames(a, b.species).len();
    vstd::arithmetic::div_mod::lemma_mod_add_multiples_vanish(f as int, n as int);
    assert((f + n) % n == f % n);
}

/// Whether a species has sprite frames.
pub fn has_body(assets: &Assets, species: &str) -> (r: bool)
    ensures
        r == spec_has_body(assets, species@),
{
    match find_key(&assets.bodies, species) {
        Some(i) => assets.bodies[i].1.len() > 0,
        None => false,
    }
}

fn frames_of<'a>(assets: &'a Assets, species: &str) -> (r: &'a Vec<Vec<String>>)
    requires
        spec_has_frames(assets, species@),
    ensures
        r@ == spec_frames(assets, species@),
{
    let i = find_key(&assets.bodies, species);
    let i = i.unwrap();
    &assets.bodies[i].1
}

fn all_first_lines_blank(frames: &Vec<Vec<String>>) -> (r: bool)
    ensures
        r == spec_all_first_lines_blank(frames@),
{
    let mut j: usize = 0;
    while j < frames.len()
        invariant
            j <= frames@.len(),
            forall|k: int| 0 <= k < j ==> {
                &&& (#[trigger] frames@[k])@.len() > 0
                &&& spec_is_blank(frames@[k]@[0]@)
            },
        decreases frames.len() - j,
    {
        if frames[j].len() == 0 || !is_blank(frames[j][0].as_str()) {
            return false;
        }
        j = j + 1;
    }
    true
}

/// Renders frame `frame` of a buddy's sprite, one string per line.
pub fn render_sprite(assets: &Assets, buddy: &Buddy, frame: usize) -> (r: Vec<String>)
    requires
        spec_has_body(assets, buddy.species@),
    ensures
        spec_strings(r@) == spec_render_sprite(assets, buddy@, frame as nat),
{
    let frames = frames_of(assets, buddy.species.as_str());
    let body = &frames[frame % frames.len()];
    let ghost lines0 = spec_strings(body@).map_values(
        |l: Seq<char>| spec_replace(l, "{E}"@, buddy.eye@),
    );
    let mut lines: Vec<String> = Vec::new();
    let mut k: usize = 0;
    while k < body.len()
        invariant
            k <= body@.len(),
            lines@.len() == k,
            forall|j: int| 0 <= j < k ==> (#[trigger] lines@[j])@ == lines0[j],
            lines0 == spec_strings(body@).map_values(
                |l: Seq<char>| spec_replace(l, "{E}"@, buddy.eye@),
            ),
        decreases body.len() - k,
    {
        let line = replace_str(body[k].as_str(), "{E}", buddy.eye.as_str());
        lines.push(line);
        k = k + 1;
    }
    assert(spec_strings(lines@) =~= lines0);
    let ghost lines1 = if buddy.hat@ != "none"@ && lines0.len() > 0 && spec_is_blank(lines0[0])
        && spec_lookup(assets.hat_lines@, buddy.hat@) is Some {
        lines0.update(0, spec_lookup(assets.hat_lines@, buddy.hat@)->0@)
    } else {
        lines0
    };
    if !str_eq(buddy.hat.as_str(), "none") && lines.len() > 0 && is_blank(lines[0].as_str()) {
        match find_key(&assets.hat_lines, buddy.hat.as_str()) {
            Some(h) => {
                let hat_line = assets.hat_lines[h].1.clone();
                lines.set(0, hat_line);
            },
            None => {},
        }
    }
    assert(spec_strings(lines@) =~= lines1);
    if lines.len() > 0 && is_blank(lines[0].as_str()) && all_first_lines_blank(frames) {
        lines.remove(0);
    }
    assert(spec_strings(lines@) =~= spec_render_sprite(assets, buddy@, frame as nat));
    lines
}

/// Frame `frame` of a buddy's sprite with the eye replaced by `-` on every line.
pub open spec fn spec_render_blink_sprite(a: &Assets, b: BuddyView, frame: nat) -> Seq<Seq<char>> {
    spec_render_sprite(a, b, frame).map_values(|l: Seq<char>| spec_replace(l, b.eye, "-"@))
}

/// Renders frame `frame` of a buddy's sprite with its eyes closed.
pub fn render_blink_sprite(assets: &Assets, buddy: &Buddy, frame: usize) -> (r: Vec<String>)
    requires
        spec_has_body(assets, buddy.species@),
    ensures
        spec_strings(r@) == spec_render_blink_sprite(assets, buddy@, frame as nat),
{
    let lines = render_sprite(assets, buddy, frame);
    let ghost want = spec_render_blink_sprite(assets, buddy@, frame as nat);
    let mut out: Vec<String> = Vec::new();
    let mut k: usize = 0;
    while k < lines.len()
        invariant
            k <= lines@.len(),
            out@.len() == k,
            spec_strings(lines@) == spec_render_sprite(assets, buddy@, frame as nat),
            want == spec_render_blink_sprite(assets, buddy@, frame as nat),
            forall|j: int| 0 <= j < k ==> (#[trigger] out@[j])@ == want[j],
        decreases lines.len() - k,
    {
        let line = replace_str(lines[k].as_str(), buddy.eye.as_str(), "-");
        assert(lines@[k as int]@ == spec_strings(lines@)[k as int]);
        out.push(line);
        k = k + 1;
    }
    assert(spec_strings(out@) =~= want);
    out
}

/// The number of sprite frames of a species that has a frame list.
pub fn sprite_frame_count(assets: &Assets, species: &str) -> (r: usize)
    requires
        spec_has_frames(assets, species@),
    ensures
        r == spec_frames(assets, species@).len(),
{
    frames_of(assets, species).len()
}

/// Renders every frame of a buddy's sprite, in order.
pub fn render_sprite_frames(assets: &Assets, buddy: &Buddy) -> (r: Vec<Vec<String>>)
    requires
        spec_has_frames(assets, buddy.species@),
    ensures
        r@.len() == spec_frames(assets, buddy.species@).len(),
        forall|i: int|
            0 <= i < r@.len() ==> spec_strings((#[trigger] r@[i])@) == spec_render_sprite(
                assets,
                buddy@,
                i as nat,
            ),
{
    let count = sprite_frame_count(assets, buddy.species.as_str());
    let mut out: Vec<Vec<String>> = Vec::new();
    let mut i: usize = 0;
    while i < count
        invariant
            i <= count,
            count == spec_frames(assets, buddy.species@).len(),
            spec_has_frames(assets, buddy.species@),
            out@.len() == i,
            forall|j: int|
                0 <= j < i ==> spec_strings((#[trigger] out@[j])@) == spec_render_sprite(
                    assets,
                    buddy@,
                    j as nat,
                ),
        decreases count - i,
    {
        let frame = render_sprite(assets, buddy, i);
        out.push(frame);
        i = i + 1;
    }
    out
}

/// `open`, the eye, `close`.
pub open spec fn spec_face2(open: Seq<char>, eye: Seq<char>, close: Seq<char>) -> Seq<char> {
    open + eye + close
}

/// `open`, the eye, `mid`, the eye, `close`.
pub open spec fn spec_face3(open: Seq<char>, eye: Seq<char>, mid: Seq<char>, close: Seq<char>) -> Seq<
    char,
> {
    open + eye + mid + eye + close
}

/// The one-line face of a species with the given eye; the species name itself
/// for a species without a face.
pub open spec fn spec_face(species: Seq<char>, eye: Seq<char>) -> Seq<char> {
    if species == "duck"@ || species == "goose"@ {
        spec_face2("("@, eye, ">"@)
    } else if species == "blob"@ {
        spec_face3("("@, eye, ""@, ")"@)
    } else if species == "cat"@ {
        spec_face3("="@, eye, "ω"@, "="@)
    } else if species == "dragon"@ {
        spec_face3("<"@, eye, "~"@, ">"@)
    } else if species == "octopus"@ {
        spec_face3("~("@, eye, ""@, ")~"@)
    } else if species == "owl"@ {
        spec_face3("("@, eye, ")("@, ")"@)
    } else if species == "penguin"@ {
        spec_face2("("@, eye, ">)"@)
    } else if species == "turtle"@ {
        spec_face3("["@, eye, "_"@, "]"@)
    } else if species == "snail"@ {
        spec_face2(""@, eye, "(@)"@)
    } else if species == "ghost"@ {
        spec_face3("/"@, eye, ""@, "\\"@)
    } else if species == "axolotl"@ {
        spec_face3("}"@, eye, "."@, "{"@)
    } else if species == "capybara"@ {
        spec_face3("("@, eye, "oo"@, ")"@)
    } else if species == "cactus"@ || species == "mushroom"@ {
        spec_face3("|"@, eye, "  "@, "|"@)
    } else if species == "robot"@ {
        spec_face3("["@, eye, ""@, "]"@)
    } else if species == "rabbit"@ {
        spec_face3("("@, eye, ".."@, ")"@)
    } else if species == "chonk"@ {
        spec_face3("("@, eye, "."@, ")"@)
    } else {
        species
    }
}

fn face2(open: &str, eye: &str, close: &str) -> (r: String)
    ensures
        r@ == spec_face2(open@, eye@, close@),
{
    let mut out: Vec<char> = Vec::new();
    push_str(&mut out, open);
    push_str(&mut out, eye);
    push_str(&mut out, close);
    assert(out@ =~= spec_face2(open@, eye@, close@));
    string_of(out.as_slice())
}

fn face3(open: &str, eye: &str, mid: &str, close: &str) -> (r: String)
    ensures
        r@ == spec_face3(open@, eye@, mid@, close@),
{
    let mut out: Vec<char> = Vec::new();
    push_str(&mut out, open);
    push_str(&mut out, eye);
    push_str(&mut out, mid);
    push_str(&mut out, eye);
    push_str(&mut out, close);
    assert(out@ =~= spec_face3(open@, eye@, mid@, close@));
    string_of(out.as_slice())
}

/// Renders a buddy's one-line face.
pub fn render_face(buddy: &Buddy) -> (r: String)
    ensures
        r@ == spec_face(buddy.species@, buddy.eye@),
{
    let eye = buddy.eye.as_str();
    let species = buddy.species.as_str();
    if str_eq(species, "duck") || str_eq(species, "goose") {
        face2("(", eye, ">")
    } else if str_eq(species, "blob") {
        face3("(", eye, "", ")")
    } else if str_eq(species, "cat") {
        face3("=", eye, "ω", "=")
    } else if str_eq(species, "dragon") {
        face3("<", eye, "~", ">")
    } else if str_eq(species, "octopus") {
        face3("~(", eye, "", ")~")
    } else if str_eq(species, "owl") {
        face3("(", eye, ")(", ")")
    } else if str_eq(species, "penguin") {
        face2("(", eye, ">)")
    } else if str_eq(species, "turtle") {
        face3("[", eye, "_", "]")
    } else if str_eq(species, "snail") {
        face2("", eye, "(@)")
    } else if str_eq(species, "ghost") {
        face3("/", eye, "", "\\")
    } else if str_eq(species, "axolotl") {
        face3("}", eye, ".", "{")
    } else if str_eq(species, "capybara") {
        face3("(", eye, "oo", ")")
    } else if str_eq(species, "cactus") || str_eq(species, "mushroom") {
        face3("|", eye, "  ", "|")
    } else if str_eq(species, "robot") {
        face3("[", eye, "", "]")
    } else if str_eq(species, "rabbit") {
        face3("(", eye, "..", ")")
    } else if str_eq(species, "chonk") {
        face3("(", eye, ".", ")")
    } else {
        buddy.species.clone()
    }
}

} // verus!
