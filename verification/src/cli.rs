use vstd::prelude::*;
use crate::parse::{parse_usize, spec_parse_usize, spec_starts_with, starts_with};
use crate::search::{byte_len, spec_byte_len, SearchFilters, SearchParams};
use crate::text::{chars_of, push_str, str_eq, string_of};

verus! {

/// Command-line arguments: the words, the `--key value` flags (a later flag
/// replaces an earlier one with the same key) and the `--shiny` switches.
#[derive(Clone, Debug, PartialEq, Eq)]
pub struct ParsedArgs {
    pub positionals: Vec<String>,
    pub flags: Vec<(String, String)>,
    pub switches: Vec<String>,
}

/// Parsed arguments seen as character sequences, with the flags as a map.
pub struct ArgsView {
    pub positionals: Seq<Seq<char>>,
    pub flags: Map<Seq<char>, Seq<char>>,
    pub switches: Seq<Seq<char>>,
}

/// The value of a flag in a list of flags (the first entry with that key).
pub open spec fn spec_flag(flags: Seq<(String, String)>, key: Seq<char>) -> Option<Seq<char>>
    decreases flags.len(),
{
    if flags.len() == 0 {
        None
    } else if flags[0].0@ == key {
        Some(flags[0].1@)
    } else {
        spec_flag(flags.drop_first(), key)
    }
}

/// The value of a flag in a map of flags.
pub open spec fn spec_map_flag(flags: Map<Seq<char>, Seq<char>>, key: Seq<char>) -> Option<Seq<char>> {
    if flags.contains_key(key) {
        Some(flags[key])
    } else {
        None
    }
}

impl ParsedArgs {
    /// These arguments hold what `v` describes.
    pub open spec fn holds(&self, v: ArgsView) -> bool {
        &&& self.positionals@.map_values(|s: String| s@) == v.positionals
        &&& self.switches@.map_values(|s: String| s@) == v.switches
        &&& forall|k: Seq<char>| #[trigger] spec_flag(self.flags@, k) == spec_map_flag(v.flags, k)
    }
}

/// `s` with every leading `--` removed, as `str::trim_start_matches("--")` gives.
pub open spec fn spec_strip_dashes(s: Seq<char>) -> Seq<char>
    decreases s.len(),
{
    if spec_starts_with(s, "--"@) && s.len() >= 2 {
        spec_strip_dashes(s.subrange(2, s.len() as int))
    } else {
        s
    }
}

/// The message for a flag without a value.
pub open spec fn spec_missing_value(key: Seq<char>) -> Seq<char> {
    "Missing value for --"@ + key
}

/// Parses `tokens[i..]` on top of what `acc` holds: a token not starting with
/// `--` is a word; `--shiny` (after removing leading `--`) is a switch; any
/// other `--key` takes the next token as its value, which must exist and
/// not start with `--`.
pub open spec fn spec_parse_args_from(tokens: Seq<Seq<char>>, i: nat, acc: ArgsView) -> Result<ArgsView, Seq<char>>
    decreases tokens.len() - i,
{
    if i >= tokens.len() {
        Ok(acc)
    } else {
        let token = tokens[i as int];
        if !spec_starts_with(token, "--"@) {
            spec_parse_args_from(tokens, i + 1, ArgsView { positionals: acc.positionals.push(token), ..acc })
        } else {
            let key = spec_strip_dashes(token);
            if key == "shiny"@ {
                spec_parse_args_from(tokens, i + 1, ArgsView { switches: acc.switches.push(key), ..acc })
            } else if i + 1 < tokens.len() && !spec_starts_with(tokens[(i + 1) as int], "--"@) {
                spec_parse_args_from(
                    tokens,
                    i + 2,
                    ArgsView { flags: acc.flags.insert(key, tokens[(i + 1) as int]), ..acc },
                )
            } else {
                Err(spec_missing_value(key))
            }
        }
    }
}

/// Parses command-line arguments.
pub open spec fn spec_parse_args(tokens: Seq<Seq<char>>) -> Result<ArgsView, Seq<char>> {
    spec_parse_args_from(
        tokens,
        0,
        ArgsView { positionals: Seq::empty(), flags: Map::empty(), switches: Seq::empty() },
    )
}

fn strip_dashes(s: &str) -> (r: String)
    ensures
        r@ == spec_strip_dashes(s@),
{
    let cs = chars_of(s);
    let mut a: usize = 0;
    assert(cs@.subrange(0, cs@.len() as int) =~= cs@);
    while a < cs.len() && cs.len() - a >= 2 && cs[a] == '-' && cs[a + 1] == '-'
        invariant
            a <= cs@.len(),
            cs@ == s@,
            spec_strip_dashes(s@) == spec_strip_dashes(cs@.subrange(a as int, cs@.len() as int)),
        decreases cs.len() - a,
    {
        let ghost t = cs@.subrange(a as int, cs@.len() as int);
        assert(t.subrange(0, 2) =~= "--"@) by {
            reveal_strlit("--");
        }
        assert(t.subrange(2, t.len() as int) =~= cs@.subrange(a + 2, cs@.len() as int));
        a = a + 2;
    }
    proof {
        let t = cs@.subrange(a as int, cs@.len() as int);
        reveal_strlit("--");
        if spec_starts_with(t, "--"@) && t.len() >= 2 {
            assert(t.subrange(0, 2)[0] == t[0]);
            assert(t.subrange(0, 2)[1] == t[1]);
        }
    }
    let mut out: Vec<char> = Vec::new();
    let mut k = a;
    while k < cs.len()
        invariant
            a <= k <= cs@.len(),
            out@ == cs@.subrange(a as int, k as int),
        decreases cs.len() - k,
    {
        out.push(cs[k]);
        k = k + 1;
        assert(out@ =~= cs@.subrange(a as int, k as int));
    }
    string_of(out.as_slice())
}

proof fn lemma_flag_absent(flags: Seq<(String, String)>, key: Seq<char>)
    requires
        forall|i: int| 0 <= i < flags.len() ==> (#[trigger] flags[i]).0@ != key,
    ensures
        spec_flag(flags, key) is None,
    decreases flags.len(),
{
    if flags.len() > 0 {
        assert forall|i: int| 0 <= i < flags.drop_first().len() implies (#[trigger] flags.drop_first()[i]).0@ != key by {
            assert(flags.drop_first()[i] == flags[i + 1]);
        }
        lemma_flag_absent(flags.drop_first(), key);
    }
}

proof fn lemma_flag_push(flags: Seq<(String, String)>, e: (String, String), key: Seq<char>)
    ensures
        spec_flag(flags.push(e), key) == match spec_flag(flags, key) {
            Some(v) => Some(v),
            None => if e.0@ == key {
                Some(e.1@)
            } else {
                None
            },
        },
    decreases flags.len(),
{
    if flags.len() == 0 {
        assert(flags.push(e).drop_first() =~= Seq::<(String, String)>::empty());
        assert(flags.push(e)[0] == e);
        assert(spec_flag(flags.push(e).drop_first(), key) is None);
    } else {
        assert(flags.push(e)[0] == flags[0]);
        assert(flags.push(e).drop_first() =~= flags.drop_first().push(e));
        lemma_flag_push(flags.drop_first(), e, key);
    }
}

proof fn lemma_flag_update(flags: Seq<(String, String)>, i: int, e: (String, String), key: Seq<char>)
    requires
        0 <= i < flags.len(),
        flags[i].0@ == e.0@,
        forall|j: int| 0 <= j < i ==> (#[trigger] flags[j]).0@ != e.0@,
    ensures
        spec_flag(flags.update(i, e), key) == if key == e.0@ {
            Some(e.1@)
        } else {
            spec_flag(flags, key)
        },
    decreases flags.len(),
{
    if i == 0 {
        assert(flags.update(i, e).drop_first() =~= flags.drop_first());
    } else {
        assert(flags.update(i, e).drop_first() =~= flags.drop_first().update(i - 1, e));
        assert forall|j: int| 0 <= j < i - 1 implies (#[trigger] flags.drop_first()[j]).0@ != e.0@ by {
            assert(flags.drop_first()[j] == flags[j + 1]);
        }
        lemma_flag_update(flags.drop_first(), i - 1, e, key);
    }
}

fn insert_flag(flags: &mut Vec<(String, String)>, key: String, value: String)
    ensures
        forall|k: Seq<char>| #[trigger] spec_flag(final(flags)@, k) == if k == key@ {
            Some(value@)
        } else {
            spec_flag(old(flags)@, k)
        },
{
    let mut i: usize = 0;
    while i < flags.len()
        invariant
            i <= flags@.len(),
            flags@ == old(flags)@,
            forall|j: int| 0 <= j < i ==> (#[trigger] flags@[j]).0@ != key@,
        decreases flags.len() - i,
    {
        if flags[i].0 == key {
            let ghost before = flags@;
            let e = (key, value);
            proof {
                assert forall|k: Seq<char>| #[trigger] spec_flag(before.update(i as int, e), k) == if k == e.0@ {
                    Some(e.1@)
                } else {
                    spec_flag(before, k)
                } by {
                    lemma_flag_update(before, i as int, e, k);
                }
            }
            flags.set(i, e);
            return;
        }
        i = i + 1;
    }
    let ghost before = flags@;
    proof {
        lemma_flag_absent(before, key@);
    }
    let e = (key, value);
    proof {
        assert forall|k: Seq<char>| #[trigger] spec_flag(before.push(e), k) == if k == e.0@ {
            Some(e.1@)
        } else {
            spec_flag(before, k)
        } by {
            lemma_flag_push(before, e, k);
        }
    }
    flags.push(e);
}

/// Parses command-line arguments (without the program name).
pub fn parse_args(tokens: Vec<String>) -> (r: Result<ParsedArgs, String>)
    ensures
        match spec_parse_args(tokens@.map_values(|s: String| s@)) {
            Ok(v) => r matches Ok(a) && a.holds(v),
            Err(e) => r matches Err(m) && m@ == e,
        },
{
    let ghost toks = tokens@.map_values(|s: String| s@);
    let mut args = ParsedArgs { positionals: Vec::new(), flags: Vec::new(), switches: Vec::new() };
    let ghost mut acc = ArgsView { positionals: Seq::empty(), flags: Map::empty(), switches: Seq::empty() };
    assert(args.holds(acc)) by {
        assert(args.positionals@.map_values(|s: String| s@) =~= Seq::<Seq<char>>::empty());
        assert(args.switches@.map_values(|s: String| s@) =~= Seq::<Seq<char>>::empty());
    }
    let mut index: usize = 0;
    while index < tokens.len()
        invariant
            index <= tokens@.len(),
            toks == tokens@.map_values(|s: String| s@),
            args.holds(acc),
            spec_parse_args(toks) == spec_parse_args_from(toks, index as nat, acc),
        decreases tokens.len() - index,
    {
        let token = &tokens[index];
        assert(toks[index as int] == token@);
        if !starts_with(token.as_str(), "--") {
            let ghost before = args.positionals@;
            args.positionals.push(token.clone());
            proof {
                acc = ArgsView { positionals: acc.positionals.push(token@), ..acc };
                assert(args.positionals@.map_values(|s: String| s@) =~= before.map_values(|s: String| s@).push(token@));
            }
            index = index + 1;
        } else {
            let key = strip_dashes(token.as_str());
            if str_eq(key.as_str(), "shiny") {
                let ghost before = args.switches@;
                let ghost k = key@;
                args.switches.push(key);
                proof {
                    acc = ArgsView { switches: acc.switches.push(k), ..acc };
                    assert(args.switches@.map_values(|s: String| s@) =~= before.map_values(|s: String| s@).push(k));
                }
                index = index + 1;
            } else if index + 1 < tokens.len() && !starts_with(tokens[index + 1].as_str(), "--") {
                assert(toks[index + 1] == tokens@[index + 1]@);
                let value = tokens[index + 1].clone();
                let ghost k = key@;
                let ghost v = value@;
                insert_flag(&mut args.flags, key, value);
                proof {
                    let old_flags = acc.flags;
                    acc = ArgsView { flags: acc.flags.insert(k, v), ..acc };
                    assert forall|q: Seq<char>| #[trigger] spec_flag(args.flags@, q) == spec_map_flag(acc.flags, q) by {
                        if q != k {
                            assert(spec_map_flag(old_flags, q) == spec_map_flag(acc.flags, q));
                        }
                    }
                }
                index = index + 2;
            } else {
                let mut out: Vec<char> = Vec::new();
                push_str(&mut out, "Missing value for --");
                push_str(&mut out, key.as_str());
                return Err(string_of(out.as_slice()));
            }
        }
    }
    Ok(args)
}

/// A command of the command-line tool.
#[derive(Clone, Copy, Debug, PartialEq, Eq)]
pub enum Command {
    Help,
    Preview,
    Search,
}

/// The command named by the first word (none, `help` or `--help` ask for help).
pub open spec fn spec_command(positionals: Seq<Seq<char>>) -> Result<Command, Seq<char>> {
    let c = if positionals.len() > 0 {
        positionals[0]
    } else {
        Seq::empty()
    };
    if c.len() == 0 || c == "help"@ || c == "--help"@ {
        Ok(Command::Help)
    } else if c == "preview"@ {
        Ok(Command::Preview)
    } else if c == "search"@ {
        Ok(Command::Search)
    } else {
        Err("Unknown command: "@ + c)
    }
}

/// Picks the command to run.
pub fn parse_command(args: &ParsedArgs) -> (r: Result<Command, String>)
    ensures
        match spec_command(args.positionals@.map_values(|s: String| s@)) {
            Ok(c) => r == Ok::<Command, String>(c),
            Err(e) => r matches Err(m) && m@ == e,
        },
{
    let ghost ps = args.positionals@.map_values(|s: String| s@);
    let command: &str = if args.positionals.len() > 0 { args.positionals[0].as_str() } else { "" };
    proof {
        reveal_strlit("");
    }
    assert(command@ == (if ps.len() > 0 { ps[0] } else { Seq::<char>::empty() }));
    if command.is_empty() || str_eq(command, "help") || str_eq(command, "--help") {
        Ok(Command::Help)
    } else if str_eq(command, "preview") {
        Ok(Command::Preview)
    } else if str_eq(command, "search") {
        Ok(Command::Search)
    } else {
        let mut out: Vec<char> = Vec::new();
        push_str(&mut out, "Unknown command: ");
        push_str(&mut out, command);
        Err(string_of(out.as_slice()))
    }
}

proof fn lemma_flag_found(flags: Seq<(String, String)>, key: Seq<char>, i: int)
    requires
        0 <= i < flags.len(),
        flags[i].0@ == key,
        forall|j: int| 0 <= j < i ==> (#[trigger] flags[j]).0@ != key,
    ensures
        spec_flag(flags, key) == Some(flags[i].1@),
    decreases i,
{
    if i > 0 {
        assert forall|j: int| 0 <= j < i - 1 implies (#[trigger] flags.drop_first()[j]).0@ != key by {
            assert(flags.drop_first()[j] == flags[j + 1]);
        }
        lemma_flag_found(flags.drop_first(), key, i - 1);
    }
}

/// The value of a flag.
pub fn get_flag<'a>(args: &'a ParsedArgs, key: &str) -> (r: Option<&'a String>)
    ensures
        match spec_flag(args.flags@, key@) {
            Some(v) => r matches Some(x) && x@ == v,
            None => r is None,
        },
{
    let mut i: usize = 0;
    while i < args.flags.len()
        invariant
            i <= args.flags@.len(),
            forall|j: int| 0 <= j < i ==> (#[trigger] args.flags@[j]).0@ != key@,
        decreases args.flags.len() - i,
    {
        if str_eq(args.flags[i].0.as_str(), key) {
            proof {
                lemma_flag_found(args.flags@, key@, i as int);
            }
            return Some(&args.flags[i].1);
        }
        i = i + 1;
    }
    proof {
        lemma_flag_absent(args.flags@, key@);
    }
    None
}

/// The message for a flag whose value is not a valid count.
pub open spec fn spec_invalid_value(flag: Seq<char>, value: Seq<char>) -> Seq<char> {
    "Invalid --"@ + flag + " value: "@ + value
}

/// A flag's value, or nothing.
pub open spec fn spec_flag_or_empty(flags: Seq<(String, String)>, key: Seq<char>) -> Seq<char> {
    match spec_flag(flags, key) {
        Some(v) => v,
        None => Seq::empty(),
    }
}

/// The count, prefix and salt length of a search asked for on the command
/// line: `--total` (100000 when absent), `--salt-prefix` (`lab-`) and
/// `--length` (the byte length of `--salt`, else of the default salt); a
/// count or length that is not a `usize`, or is zero, is an error.
pub open spec fn spec_cli_search(a: &ParsedArgs, default_salt: Seq<char>) -> Result<(nat, Seq<char>, nat), Seq<char>> {
    let flags = a.flags@;
    let total = match spec_flag(flags, "total"@) {
        Some(v) => match spec_parse_usize(v) {
            Some(n) => Ok(n),
            None => Err(spec_invalid_value("total"@, v)),
        },
        None => Ok(100000nat),
    };
    match total {
        Err(e) => Err(e),
        Ok(total) => if total == 0 {
            Err(spec_invalid_value("total"@, spec_flag_or_empty(flags, "total"@)))
        } else {
            let prefix = match spec_flag(flags, "salt-prefix"@) {
                Some(p) => p,
                None => "lab-"@,
            };
            let length = match spec_flag(flags, "length"@) {
                Some(v) => match spec_parse_usize(v) {
                    Some(n) => Ok(n),
                    None => Err(spec_invalid_value("length"@, v)),
                },
                None => Ok(
                    match spec_flag(flags, "salt"@) {
                        Some(s) => spec_byte_len(s),
                        None => spec_byte_len(default_salt),
                    },
                ),
            };
            match length {
                Err(e) => Err(e),
                Ok(length) => if length == 0 {
                    Err(spec_invalid_value("length"@, spec_flag_or_empty(flags, "length"@)))
                } else {
                    Ok((total, prefix, length))
                },
            }
        },
    }
}

/// The length of a command-line search: an explicit `--length` wins whatever
/// `--salt` holds (its value when that is a positive count, the error for
/// `--length` otherwise); without it, the byte length of `--salt`, else of the
/// default salt (an error when that is zero). This holds whenever `--total`
/// is absent or a positive count.
pub proof fn lemma_cli_length(a: &ParsedArgs, default_salt: Seq<char>)
    requires
        match spec_flag(a.flags@, "total"@) {
            None => true,
            Some(t) => spec_parse_usize(t) matches Some(n) && n > 0,
        },
    ensures
        match spec_flag(a.flags@, "length"@) {
            Some(v) => match spec_parse_usize(v) {
                Some(n) => if n > 0 {
                    spec_cli_search(a, default_salt) matches Ok(r) && r.2 == n
                } else {
                    spec_cli_search(a, default_salt) == Err::<(nat, Seq<char>, nat), Seq<char>>(
                        spec_invalid_value("length"@, v),
                    )
                },
                None => spec_cli_search(a, default_salt) == Err::<(nat, Seq<char>, nat), Seq<char>>(
                    spec_invalid_value("length"@, v),
                ),
            },
            None => {
                let n = spec_byte_len(
                    match spec_flag(a.flags@, "salt"@) {
                        Some(s) => s,
                        None => default_salt,
                    },
                );
                if n > 0 {
                    spec_cli_search(a, default_salt) matches Ok(r) && r.2 == n
                } else {
                    spec_cli_search(a, default_salt) == Err::<(nat, Seq<char>, nat), Seq<char>>(
                        spec_invalid_value("length"@, Seq::empty()),
                    )
                }
            },
        },
{
}

fn invalid_value(flag: &str, value: &str) -> (r: String)
    ensures
        r@ == spec_invalid_value(flag@, value@),
{
    let mut out: Vec<char> = Vec::new();
    push_str(&mut out, "Invalid --");
    push_str(&mut out, flag);
    push_str(&mut out, " value: ");
    push_str(&mut out, value);
    assert(out@ =~= spec_invalid_value(flag@, value@));
    string_of(out.as_slice())
}

fn flag_or_empty(args: &ParsedArgs, key: &str) -> (r: String)
    ensures
        r@ == spec_flag_or_empty(args.flags@, key@),
{
    match get_flag(args, key) {
        Some(v) => v.clone(),
        None => String::new(),
    }
}

fn optional_flag(args: &ParsedArgs, key: &str) -> (r: Option<String>)
    ensures
        match spec_flag(args.flags@, key@) {
            Some(v) => r matches Some(x) && x@ == v,
            None => r is None,
        },
{
    match get_flag(args, key) {
        Some(v) => Some(v.clone()),
        None => None,
    }
}

fn has_switch(args: &ParsedArgs, name: &str) -> (r: bool)
    ensures
        r == args.switches@.map_values(|s: String| s@).contains(name@),
{
    let ghost sw = args.switches@.map_values(|s: String| s@);
    let mut i: usize = 0;
    while i < args.switches.len()
        invariant
            i <= args.switches@.len(),
            sw == args.switches@.map_values(|s: String| s@),
            forall|j: int| 0 <= j < i ==> sw[j] != name@,
        decreases args.switches.len() - i,
    {
        if str_eq(args.switches[i].as_str(), name) {
            assert(sw[i as int] == name@);
            return true;
        }
        i = i + 1;
    }
    false
}

/// The search asked for on the command line, for `user_id`; the stat
/// threshold is left for the caller, who parses `--min-stat`.
pub fn cli_search_params(args: &ParsedArgs, user_id: String, default_salt: &str) -> (r: Result<
    SearchParams,
    String,
>)
    ensures
        match spec_cli_search(args, default_salt@) {
            Err(e) => r matches Err(m) && m@ == e,
            Ok((total, prefix, length)) => r matches Ok(p) && p.total == total && p.prefix@ == prefix
                && p.length == length && p.user_id@ == user_id@ && p.max_matches == 20 && ({
                let f = p.filters;
                &&& match spec_flag(args.flags@, "species"@) {
                    Some(v) => f.species matches Some(x) && x@ == v,
                    None => f.species is None,
                }
                &&& match spec_flag(args.flags@, "rarity"@) {
                    Some(v) => f.rarity matches Some(x) && x@ == v,
                    None => f.rarity is None,
                }
                &&& match spec_flag(args.flags@, "eye"@) {
                    Some(v) => f.eye matches Some(x) && x@ == v,
                    None => f.eye is None,
                }
                &&& match spec_flag(args.flags@, "hat"@) {
                    Some(v) => f.hat matches Some(x) && x@ == v,
                    None => f.hat is None,
                }
                &&& f.shiny == args.switches@.map_values(|s: String| s@).contains("shiny"@)
                &&& f.min_stat is None
            }),
        },
{
    let total: usize = match get_flag(args, "total") {
        Some(v) => match parse_usize(v.as_str()) {
            Some(n) => n,
            None => return Err(invalid_value("total", v.as_str())),
        },
        None => 100000,
    };
    if total == 0 {
        let shown = flag_or_empty(args, "total");
        return Err(invalid_value("total", shown.as_str()));
    }
    let prefix = match get_flag(args, "salt-prefix") {
        Some(p) => p.clone(),
        None => "lab-".to_owned(),
    };
    let length: usize = match get_flag(args, "length") {
        Some(v) => match parse_usize(v.as_str()) {
            Some(n) => n,
            None => return Err(invalid_value("length", v.as_str())),
        },
        None => match get_flag(args, "salt") {
            Some(s) => byte_len(s.as_str()),
            None => byte_len(default_salt),
        },
    };
    if length == 0 {
        let shown = flag_or_empty(args, "length");
        return Err(invalid_value("length", shown.as_str()));
    }
    let filters = SearchFilters {
        species: optional_flag(args, "species"),
        rarity: optional_flag(args, "rarity"),
        eye: optional_flag(args, "eye"),
        hat: optional_flag(args, "hat"),
        shiny: has_switch(args, "shiny"),
        min_stat: None,
    };
    Ok(SearchParams { user_id, total, prefix, length, filters, max_matches: 20 })
}

/// The salt to preview: `--salt`, else the default salt.
pub fn cli_preview_salt(args: &ParsedArgs, default_salt: &str) -> (r: String)
    ensures
        r@ == match spec_flag(args.flags@, "salt"@) {
            Some(s) => s,
            None => default_salt@,
        },
{
    match get_flag(args, "salt") {
        Some(s) => s.clone(),
        None => default_salt.to_owned(),
    }
}

/// The user id of a command: `--user-id` when given, whatever the detection
/// gave; otherwise the detected id, or the detection's error.
pub fn cli_user_id(args: &ParsedArgs, detected: Result<String, String>) -> (r: Result<String, String>)
    ensures
        match spec_flag(args.flags@, "user-id"@) {
            Some(v) => r matches Ok(u) && u@ == v,
            None => r == detected,
        },
{
    match get_flag(args, "user-id") {
        Some(v) => Ok(v.clone()),
        None => detected,
    }
}

} // verus!
