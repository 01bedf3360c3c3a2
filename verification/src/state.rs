use vstd::prelude::*;
use crate::text::{decimal_string, spec_decimal, str_eq};

verus! {

/// What is recorded about one binary: its original salt and when it was recorded.
#[derive(Clone, Debug, PartialEq, Eq)]
pub struct BinaryStateEntry {
    pub original_salt: String,
    pub recorded_at: String,
}

/// The state file: a version and, per binary path, the recorded entry.
///
/// `binaries` is keyed by path, one entry per path.
#[derive(Clone, Debug, PartialEq, Eq)]
pub struct StateFile {
    pub version: u32,
    pub binaries: Vec<(String, BinaryStateEntry)>,
}

/// A recorded entry seen as character sequences: original salt, time.
pub type EntryView = (Seq<char>, Seq<char>);

/// The entries of a state file, keyed by path.
pub open spec fn spec_entries(s: &StateFile) -> Seq<(Seq<char>, EntryView)> {
    s.binaries@.map_values(
        |e: (String, BinaryStateEntry)| (e.0@, (e.1.original_salt@, e.1.recorded_at@)),
    )
}

/// The entry recorded under `path` (the first with that key).
pub open spec fn spec_entry(entries: Seq<(Seq<char>, EntryView)>, path: Seq<char>) -> Option<EntryView>
    decreases entries.len(),
{
    if entries.len() == 0 {
        None
    } else if entries[0].0 == path {
        Some(entries[0].1)
    } else {
        spec_entry(entries.drop_first(), path)
    }
}

/// Each path has at most one entry.
pub open spec fn spec_paths_distinct(entries: Seq<(Seq<char>, EntryView)>) -> bool {
    forall|i: int, j: int| 0 <= i < j < entries.len() ==> #[trigger] entries[i].0 != #[trigger] entries[j].0
}

/// The original salt recorded for `path`.
pub open spec fn spec_recorded_salt(entries: Seq<(Seq<char>, EntryView)>, path: Seq<char>) -> Option<Seq<char>> {
    match spec_entry(entries, path) {
        Some(e) => Some(e.0),
        None => None,
    }
}

/// The entries after recording `salt` for `path` at time `at`: unchanged when
/// `path` already has an entry, otherwise with the new entry added.
pub open spec fn spec_record(entries: Seq<(Seq<char>, EntryView)>, path: Seq<char>, salt: Seq<char>, at: Seq<char>) -> Seq<
    (Seq<char>, EntryView),
> {
    if spec_entry(entries, path) is Some {
        entries
    } else {
        entries.push((path, (salt, at)))
    }
}

impl StateFile {
    /// A state file is well formed when each path has at most one entry.
    pub open spec fn wf(&self) -> bool {
        spec_paths_distinct(spec_entries(self))
    }
}

impl Default for StateFile {
    /// The empty state file, version 1.
    fn default() -> (r: Self)
        ensures
            r.version == 1,
            r.binaries@.len() == 0,
            r.wf(),
    {
        StateFile { version: 1, binaries: Vec::new() }
    }
}

proof fn lemma_entry_skip(entries: Seq<(Seq<char>, EntryView)>, path: Seq<char>, i: int)
    requires
        0 <= i < entries.len(),
        entries[i].0 != path,
    ensures
        spec_entry(entries.subrange(i, entries.len() as int), path) == spec_entry(
            entries.subrange(i + 1, entries.len() as int),
            path,
        ),
{
    assert(entries.subrange(i, entries.len() as int).drop_first() =~= entries.subrange(
        i + 1,
        entries.len() as int,
    ));
}

fn find_entry(state: &StateFile, binary_path: &str) -> (r: Option<usize>)
    ensures
        match r {
            Some(i) => i < state.binaries@.len() && spec_entry(spec_entries(state), binary_path@)
                == Some(spec_entries(state)[i as int].1),
            None => spec_entry(spec_entries(state), binary_path@) is None,
        },
{
    let ghost es = spec_entries(state);
    let mut i: usize = 0;
    assert(es.subrange(0, es.len() as int) =~= es);
    while i < state.binaries.len()
        invariant
            i <= state.binaries@.len(),
            es == spec_entries(state),
            spec_entry(es, binary_path@) == spec_entry(es.subrange(i as int, es.len() as int), binary_path@),
        decreases state.binaries.len() - i,
    {
        if str_eq(state.binaries[i].0.as_str(), binary_path) {
            assert(es.subrange(i as int, es.len() as int)[0] == es[i as int]);
            return Some(i);
        }
        proof {
            lemma_entry_skip(es, binary_path@, i as int);
        }
        i = i + 1;
    }
    None
}

/// Whether each binary path of a state file has at most one entry.
pub fn paths_distinct(state: &StateFile) -> (r: bool)
    ensures
        r == state.wf(),
{
    let ghost es = spec_entries(state);
    let n = state.binaries.len();
    let mut i: usize = 0;
    while i < n
        invariant
            n == state.binaries@.len(),
            es == spec_entries(state),
            i <= n,
            forall|a: int, b: int| 0 <= a < b < n && a < i ==> #[trigger] es[a].0 != #[trigger] es[b].0,
        decreases n - i,
    {
        let mut j: usize = i + 1;
        while j < n
            invariant
                n == state.binaries@.len(),
                es == spec_entries(state),
                i < n,
                i + 1 <= j <= n,
                forall|a: int, b: int| 0 <= a < b < n && a < i ==> #[trigger] es[a].0 != #[trigger] es[b].0,
                forall|b: int| i < b < j ==> es[i as int].0 != #[trigger] es[b].0,
            decreases n - j,
        {
            assert(es[i as int].0 == state.binaries@[i as int].0@);
            assert(es[j as int].0 == state.binaries@[j as int].0@);
            if str_eq(state.binaries[i].0.as_str(), state.binaries[j].0.as_str()) {
                assert(!spec_paths_distinct(es)) by {
                    assert(es[i as int].0 == es[j as int].0);
                }
                return false;
            }
            j = j + 1;
        }
        i = i + 1;
    }
    true
}

/// The original salt recorded for a binary, if any.
pub fn get_recorded_original_salt(state: &StateFile, binary_path: &str) -> (r: Option<String>)
    ensures
        match spec_recorded_salt(spec_entries(state), binary_path@) {
            Some(s) => r matches Some(x) && x@ == s,
            None => r is None,
        },
{
    match find_entry(state, binary_path) {
        Some(i) => Some(state.binaries[i].1.original_salt.clone()),
        None => None,
    }
}

/// Records the original salt of a binary unless one is recorded already;
/// whether it was recorded (the file is then to be written back).
pub fn record_original_salt(
    state: &mut StateFile,
    binary_path: &str,
    original_salt: &str,
    recorded_at: String,
) -> (r: bool)
    requires
        old(state).wf(),
    ensures
        r == (spec_entry(spec_entries(old(state)), binary_path@) is None),
        spec_entries(final(state)) == spec_record(
            spec_entries(old(state)),
            binary_path@,
            original_salt@,
            recorded_at@,
        ),
        final(state).version == old(state).version,
        final(state).wf(),
{
    match find_entry(state, binary_path) {
        Some(_) => false,
        None => {
            proof {
                lemma_absent_key(spec_entries(state), binary_path@);
            }
            state.binaries.push(
                (
                    binary_path.to_owned(),
                    BinaryStateEntry { original_salt: original_salt.to_owned(), recorded_at },
                ),
            );
            assert(spec_entries(state) =~= spec_entries(old(state)).push(
                (binary_path@, (original_salt@, recorded_at@)),
            ));
            true
        },
    }
}

proof fn lemma_absent_key(entries: Seq<(Seq<char>, EntryView)>, path: Seq<char>)
    requires
        spec_entry(entries, path) is None,
    ensures
        forall|i: int| 0 <= i < entries.len() ==> (#[trigger] entries[i]).0 != path,
    decreases entries.len(),
{
    if entries.len() > 0 {
        lemma_absent_key(entries.drop_first(), path);
        assert forall|i: int| 0 <= i < entries.len() implies (#[trigger] entries[i]).0 != path by {
            if i > 0 {
                assert(entries[i] == entries.drop_first()[i - 1]);
            }
        }
    }
}

proof fn lemma_entry_push(entries: Seq<(Seq<char>, EntryView)>, e: (Seq<char>, EntryView), path: Seq<char>)
    ensures
        spec_entry(entries.push(e), path) == match spec_entry(entries, path) {
            Some(x) => Some(x),
            None => if e.0 == path {
                Some(e.1)
            } else {
                None
            },
        },
    decreases entries.len(),
{
    if entries.len() == 0 {
        assert(entries.push(e).drop_first() =~= Seq::<(Seq<char>, EntryView)>::empty());
    } else {
        assert(entries.push(e).drop_first() =~= entries.drop_first().push(e));
        lemma_entry_push(entries.drop_first(), e, path);
    }
}

/// Reading back what was recorded: after recording `salt` for `path`, the salt
/// recorded for `path` is `salt` if none was recorded before, and the earlier
/// one otherwise (the first recording wins).
pub proof fn lemma_record_then_get(
    entries: Seq<(Seq<char>, EntryView)>,
    path: Seq<char>,
    salt: Seq<char>,
    at: Seq<char>,
)
    ensures
        spec_recorded_salt(spec_record(entries, path, salt, at), path) == match spec_recorded_salt(
            entries,
            path,
        ) {
            Some(s) => Some(s),
            None => Some(salt),
        },
{
    lemma_entry_push(entries, (path, (salt, at)), path);
}

/// Recording a salt for one binary leaves what is recorded for every other
/// binary unchanged.
pub proof fn lemma_record_other_path(
    entries: Seq<(Seq<char>, EntryView)>,
    path: Seq<char>,
    salt: Seq<char>,
    at: Seq<char>,
    other: Seq<char>,
)
    requires
        other != path,
    ensures
        spec_entry(spec_record(entries, path, salt, at), other) == spec_entry(entries, other),
{
    lemma_entry_push(entries, (path, (salt, at)), other);
}

/// Recording is idempotent: recording again for the same binary changes nothing.
pub proof fn lemma_record_idempotent(
    entries: Seq<(Seq<char>, EntryView)>,
    path: Seq<char>,
    salt: Seq<char>,
    at: Seq<char>,
    salt2: Seq<char>,
    at2: Seq<char>,
)
    ensures
        spec_record(spec_record(entries, path, salt, at), path, salt2, at2) == spec_record(
            entries,
            path,
            salt,
            at,
        ),
{
    lemma_entry_push(entries, (path, (salt, at)), path);
}

/// The time of a recording: the seconds since the Unix epoch in decimal, `0`
/// when the clock reads before the epoch.
pub fn current_timestamp(seconds_since_epoch: Option<u64>) -> (r: String)
    ensures
        r@ == spec_decimal(
            match seconds_since_epoch {
                Some(s) => s as nat,
                None => 0,
            },
        ),
{
    let seconds = match seconds_since_epoch {
        Some(s) => s,
        None => 0,
    };
    decimal_string(seconds)
}

} // verus!
