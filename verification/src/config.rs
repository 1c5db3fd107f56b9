//! The project configuration: written once per repository, not per case.

use vstd::prelude::*;
use crate::strmap::{StrMap, ascending, keys_of, lemma_map_of_ascending};
use crate::text::{begins, decimal, has, joined, views};

verus! {

/// How long a case's subject may run when nothing says otherwise, in seconds.
///
/// Five minutes: far above anything a real case does, far below the global limit of any CI runner.
pub const DEFAULT_TIMEOUT_SECONDS: u64 = 300;

/// What a project tells gaveldrop about itself.
#[derive(Debug, Clone)]
pub struct Config {
    /// Glob pattern locating the case files, relative to the repository root.
    pub cases: String,
    /// How dependencies are faked.
    pub fake: FakeConfig,
    /// Environment variables to remove from every subject.
    pub clear_env: Vec<String>,
    /// The thresholds a run must meet, beyond every case simply passing.
    pub gate: GateConfig,
    /// How many seconds one case's subject may run before it is killed. `0` means no limit.
    pub timeout: Option<u64>,
}

/// What a run must clear to be considered a pass.
///
/// Every knob is optional and absent means unenforced: gating is opt-in.
#[derive(Debug, Clone)]
pub struct GateConfig {
    /// The least weighted score that counts as a pass.
    pub min_score: Option<u32>,
    /// How many `allow_fail` cases may fail before the exemption is a lie.
    pub max_tolerated: Option<usize>,
    /// A weight above which a single failing case fails the run on its own.
    pub fail_above_weight: Option<u32>,
}

impl Default for GateConfig {
    fn default() -> (g: Self)
        ensures
            g.min_score is None,
            g.max_tolerated is None,
            g.fail_above_weight is None,
    {
        GateConfig { min_score: None, max_tolerated: None, fail_above_weight: None }
    }
}

/// How dependencies are faked.
#[derive(Debug, Clone)]
pub struct FakeConfig {
    /// Refuse to let any rule reach the real tool, wherever this runs.
    pub no_passthrough: bool,
    /// The binaries to shadow. Each gets a symlink to the fake, first on `PATH`.
    pub bins: Vec<String>,
}

impl Default for FakeConfig {
    fn default() -> (f: Self)
        ensures
            !f.no_passthrough,
            f.bins@.len() == 0,
    {
        FakeConfig { no_passthrough: false, bins: Vec::new() }
    }
}

impl Default for Config {
    fn default() -> (c: Self)
        ensures
            c.cases@.len() == 0,
            !c.fake.no_passthrough,
            c.fake.bins@.len() == 0,
            c.clear_env@.len() == 0,
            c.gate.min_score is None,
            c.gate.max_tolerated is None,
            c.gate.fail_above_weight is None,
            c.timeout is None,
    {
        Config {
            cases: String::new(),
            fake: FakeConfig::default(),
            clear_env: Vec::new(),
            gate: GateConfig::default(),
            timeout: None,
        }
    }
}

/// A failure of the `serde_yaml_ng` parser, carried as it came.
#[verifier::external_type_specification]
#[verifier::external_body]
pub struct ExYamlError(serde_yaml_ng::Error);

/// A malformed glob pattern, carried as it came.
#[verifier::external_type_specification]
#[verifier::external_body]
pub struct ExPatternError(glob::PatternError);

/// What can go wrong with the configuration.
#[derive(Debug)]
pub enum ConfigError {
    /// The configuration file could not be read.
    Io {
        /// The path that could not be read.
        path: std::path::PathBuf,
        /// The underlying failure.
        source: std::io::Error,
    },
    /// The configuration is not valid YAML, or has an unknown key.
    Parse {
        /// The offending path.
        path: std::path::PathBuf,
        /// The underlying failure.
        source: serde_yaml_ng::Error,
    },
    /// The `cases` pattern is not a valid glob.
    Pattern {
        /// The offending pattern.
        pattern: String,
        /// The underlying failure.
        source: glob::PatternError,
    },
    /// A shard was asked for that does not exist.
    ShardOutOfRange {
        /// The index asked for.
        index: usize,
        /// How many shards were declared.
        of: usize,
    },
    /// A selection fragment matched no case.
    NothingSelected {
        /// Every fragment nobody matched.
        fragments: Vec<String>,
    },
    /// The pattern matched no file.
    NoCases {
        /// The pattern that found nothing.
        pattern: String,
        /// Where it was resolved from.
        root: std::path::PathBuf,
    },
    /// Two or more cases claim the same `name:`.
    DuplicateNames {
        /// Every repeated name, with the files claiming it.
        collisions: Vec<(String, Vec<String>)>,
    },
}

/// What `serde_yaml_ng` said, in its own words.
///
/// Calls `serde_yaml_ng::Error`'s `to_string`; the wording belongs to that crate, so nothing is
/// stated of it.
#[verifier::external_body]
pub(crate) fn yaml_error_text(error: &serde_yaml_ng::Error) -> String {
    error.to_string()
}

/// What `glob` said of a malformed pattern, in its own words.
///
/// Calls `glob::PatternError`'s `to_string`; the wording belongs to that crate, so nothing is
/// stated of it.
#[verifier::external_body]
fn pattern_error_text(error: &glob::PatternError) -> String {
    error.to_string()
}

/// `text` as Rust's `Debug` writes a string: between double quotes, with escapes.
pub uninterp spec fn debug_quoted(text: Seq<char>) -> Seq<char>;

/// `text` quoted the way Rust's `Debug` writes a string.
///
/// Calls `format!("{:?}")` on the text; the escaping is the standard library's, so the result is
/// named rather than spelled out.
#[verifier::external_body]
pub(crate) fn quoted(text: &str) -> (out: String)
    ensures
        out@ == debug_quoted(text@),
{
    format!("{text:?}")
}

/// A list of files as a sentence reads it: `a and b`, or `a, b and c`.
pub open spec fn listed_text(files: Seq<Seq<char>>) -> Seq<char> {
    if files.len() == 0 {
        Seq::empty()
    } else if files.len() == 1 {
        files[0]
    } else {
        joined(files.drop_last(), ", "@) + " and "@ + files.last()
    }
}

/// A list of files as a sentence reads it: `a and b`, or `a, b and c`.
pub fn listed(files: &[String]) -> (out: String)
    ensures
        out@ == listed_text(views(files@)),
{
    let n = files.len();
    if n == 0 {
        return String::new();
    }
    if n == 1 {
        return files[0].clone();
    }
    let mut rest: Vec<String> = Vec::new();
    let mut i: usize = 0;
    while i < n - 1
        invariant
            n == files@.len(),
            n >= 2,
            i <= n - 1,
            rest@ == files@.take(i as int),
        decreases n - 1 - i,
    {
        rest.push(files[i].clone());
        assert(rest@ =~= files@.take(i + 1));
        i = i + 1;
    }
    let mut out = crate::text::join(&rest, ", ");
    out.append(" and ");
    out.append(files[n - 1].as_str());
    assert(views(rest@) =~= views(files@).drop_last());
    out
}

/// The sentence a collision is reported with.
pub open spec fn collision_text(name: Seq<char>, files: Seq<Seq<char>>) -> Seq<char> {
    decimal(files.len()) + " cases are called "@ + debug_quoted(name) + ": "@ + listed_text(files)
}

/// The sentence for every repeated name, each with its collision, and why it matters.
pub open spec fn duplicates_text(collisions: Seq<(String, Vec<String>)>) -> Seq<char> {
    joined(collisions.map_values(|c: (String, Vec<String>)| collision_text(c.0@, views(c.1@))), "; "@)
        + ". A name is what identifies a case in every report this project writes — a JUnit file with two testcases of the same name is malformed for several dashboards, the HTML report keys each case's detail by it, and a terminal line naming a failure would not say which file to open. Rename one"@
}

/// What the failure says.
pub open spec fn nothing_selected_text(fragments: Seq<Seq<char>>) -> Seq<char> {
    "no case path contains "@ + joined(fragments.map_values(|f: Seq<char>| debug_quoted(f)), " or "@)
        + ". A filter that matched nothing would otherwise run zero cases and report success"@
}

/// What the failure says of a shard that does not exist.
pub open spec fn shard_text(index: nat, of: nat) -> Seq<char> {
    "there is no shard "@ + decimal(index) + " of "@ + decimal(of)
        + ". Shards are 0-indexed, so the last one is "@ + decimal(if of > 0 { (of - 1) as nat } else { 0 })
}

impl ConfigError {
    /// What the failure says.
    pub fn message(&self) -> (text: String)
        ensures
            self matches ConfigError::ShardOutOfRange { index, of } ==> text@ == shard_text(
                *index as nat,
                *of as nat,
            ),
            self matches ConfigError::NothingSelected { fragments } ==> text@ == nothing_selected_text(
                views(fragments@),
            ),
            self matches ConfigError::DuplicateNames { collisions } ==> text@ == duplicates_text(collisions@),
            self matches ConfigError::Pattern { pattern, .. } ==> begins(
                text@,
                "the `cases` pattern "@ + debug_quoted(pattern@) + " is not a valid glob: "@,
            ),
            self is Io ==> begins(text@, "reading the configuration "@),
            self is Parse ==> begins(text@, "configuration "@),
            self is NoCases ==> begins(text@, "the `cases` pattern "@),
    {
        match self {
            ConfigError::Io { path, source } => {
                let mut out = String::from_str("reading the configuration ");
                let ghost head = out@;
                out.append(crate::ext::path_text(crate::ext::as_path(path)).as_str());
                out.append(": ");
                out.append(crate::ext::io_error_text(source).as_str());
                assert(out@.subrange(0, head.len() as int) =~= head);
                out
            },
            ConfigError::Parse { path, source } => {
                let mut out = String::from_str("configuration ");
                let ghost head = out@;
                out.append(crate::ext::path_text(crate::ext::as_path(path)).as_str());
                out.append(" is invalid: ");
                out.append(yaml_error_text(source).as_str());
                assert(out@.subrange(0, head.len() as int) =~= head);
                out
            },
            ConfigError::Pattern { pattern, source } => {
                let mut out = String::from_str("the `cases` pattern ");
                out.append(quoted(pattern.as_str()).as_str());
                out.append(" is not a valid glob: ");
                let ghost head = out@;
                out.append(pattern_error_text(source).as_str());
                assert(out@.subrange(0, head.len() as int) =~= head);
                out
            },
            ConfigError::ShardOutOfRange { index, of } => {
                let mut out = String::from_str("there is no shard ");
                out.append(crate::text::decimal_string(*index as u64).as_str());
                out.append(" of ");
                out.append(crate::text::decimal_string(*of as u64).as_str());
                out.append(". Shards are 0-indexed, so the last one is ");
                let last: usize = if *of > 0 { *of - 1 } else { 0 };
                out.append(crate::text::decimal_string(last as u64).as_str());
                out
            },
            ConfigError::NothingSelected { fragments } => {
                let mut parts: Vec<String> = Vec::new();
                let mut i: usize = 0;
                while i < fragments.len()
                    invariant
                        i <= fragments@.len(),
                        views(parts@) == views(fragments@.take(i as int)).map_values(
                            |f: Seq<char>| debug_quoted(f),
                        ),
                    decreases fragments@.len() - i,
                {
                    let q = quoted(fragments[i].as_str());
                    let ghost before = parts@;
                    parts.push(q);
                    proof {
                        assert(views(parts@) =~= views(before).push(q@));
                        assert(views(fragments@.take(i + 1)).map_values(|f: Seq<char>| debug_quoted(f))
                            =~= views(fragments@.take(i as int)).map_values(
                            |f: Seq<char>| debug_quoted(f),
                        ).push(debug_quoted(fragments@[i as int]@)));
                    }
                    i = i + 1;
                }
                assert(fragments@.take(fragments@.len() as int) =~= fragments@);
                let mut out = String::from_str("no case path contains ");
                out.append(crate::text::join(&parts, " or ").as_str());
                out.append(
                    ". A filter that matched nothing would otherwise run zero cases and report success",
                );
                out
            },
            ConfigError::NoCases { pattern, root } => {
                let mut out = String::from_str("the `cases` pattern ");
                let ghost head = out@;
                out.append(quoted(pattern.as_str()).as_str());
                out.append(" matched no file under ");
                out.append(crate::ext::path_text(crate::ext::as_path(root)).as_str());
                out.append(". A suite with no cases would pass while proving nothing");
                assert(out@.subrange(0, head.len() as int) =~= head);
                out
            },
            ConfigError::DuplicateNames { collisions } => {
                let mut parts: Vec<String> = Vec::new();
                let mut i: usize = 0;
                while i < collisions.len()
                    invariant
                        i <= collisions@.len(),
                        views(parts@) == collisions@.take(i as int).map_values(
                            |c: (String, Vec<String>)| collision_text(c.0@, views(c.1@)),
                        ),
                    decreases collisions@.len() - i,
                {
                    let (name, files) = &collisions[i];
                    let mut part = crate::text::decimal_string(files.len() as u64);
                    part.append(" cases are called ");
                    part.append(quoted(name.as_str()).as_str());
                    part.append(": ");
                    part.append(listed(files.as_slice()).as_str());
                    let ghost before = parts@;
                    proof {
                        assert(views(files@).len() == files@.len());
                    }
                    parts.push(part);
                    proof {
                        assert(views(parts@) =~= views(before).push(part@));
                        assert(collisions@.take(i + 1).map_values(|c: (String, Vec<String>)| collision_text(c.0@, views(c.1@)))
                            =~= collisions@.take(i as int).map_values(
                            |c: (String, Vec<String>)| collision_text(c.0@, views(c.1@)),
                        ).push(collision_text(collisions@[i as int].0@, views(collisions@[i as int].1@))));
                    }
                    i = i + 1;
                }
                assert(collisions@.take(collisions@.len() as int) =~= collisions@);
                let mut out = crate::text::join(&parts, "; ");
                out.append(
                    ". A name is what identifies a case in every report this project writes — a JUnit file with two testcases of the same name is malformed for several dashboards, the HTML report keys each case's detail by it, and a terminal line naming a failure would not say which file to open. Rename one",
                );
                out
            },
        }
    }
}

/// The files of `named` that claim `name`, in order.
pub open spec fn files_named(named: Seq<(String, String)>, name: Seq<char>) -> Seq<Seq<char>>
    decreases named.len(),
{
    if named.len() == 0 {
        Seq::empty()
    } else if named.last().0@ == name {
        files_named(named.drop_last(), name).push(named.last().1@)
    } else {
        files_named(named.drop_last(), name)
    }
}

proof fn lemma_files_named_empty(named: Seq<(String, String)>, name: Seq<char>)
    requires
        forall|j: int| 0 <= j < named.len() ==> named[j].0@ != name,
    ensures
        files_named(named, name).len() == 0,
    decreases named.len(),
{
    if named.len() > 0 {
        lemma_files_named_empty(named.drop_last(), name);
    }
}

proof fn lemma_files_named_some(named: Seq<(String, String)>, name: Seq<char>, j: int)
    requires
        0 <= j < named.len(),
        named[j].0@ == name,
    ensures
        files_named(named, name).len() > 0,
    decreases named.len(),
{
    if j < named.len() - 1 {
        lemma_files_named_some(named.drop_last(), name, j);
    }
}

/// Every name claimed by more than one case, with the files claiming it, names in ascending
/// order.
pub fn duplicate_names(named: &[(String, String)]) -> (out: Vec<(String, Vec<String>)>)
    ensures
        ascending(keys_of(out@)),
        forall|i: int|
            0 <= i < out@.len() ==> views((#[trigger] out@[i]).1@) == files_named(named@, out@[i].0@)
                && files_named(named@, out@[i].0@).len() > 1,
        forall|name: Seq<char>|
            files_named(named@, name).len() > 1 ==> keys_of(out@).contains(name),
{
    let mut by_name: StrMap<Vec<String>> = StrMap::new();
    let mut i: usize = 0;
    while i < named.len()
        invariant
            i <= named@.len(),
            forall|k: Seq<char>|
                #[trigger] by_name@.contains_key(k) ==> views(by_name@[k]@) == files_named(
                    named@.take(i as int),
                    k,
                ),
            forall|k: Seq<char>|
                files_named(named@.take(i as int), k).len() > 0 ==> #[trigger] by_name@.contains_key(k),
        decreases named@.len() - i,
    {
        let (name, file) = &named[i];
        let ghost prefix = named@.take(i as int);
        assert(named@.take(i + 1).drop_last() =~= prefix);
        let mut files: Vec<String> = match by_name.get(name.as_str()) {
            Some(v) => {
                let mut copy: Vec<String> = Vec::new();
                let mut k: usize = 0;
                while k < v.len()
                    invariant
                        k <= v@.len(),
                        copy@ == v@.take(k as int),
                    decreases v@.len() - k,
                {
                    copy.push(v[k].clone());
                    assert(copy@ =~= v@.take(k + 1));
                    k = k + 1;
                }
                assert(copy@ =~= v@);
                copy
            },
            None => {
                proof {
                    if files_named(prefix, name@).len() > 0 {
                        assert(by_name@.contains_key(name@));
                    }
                }
                Vec::new()
            },
        };
        let ghost before = files@;
        files.push(file.clone());
        proof {
            assert(views(files@) =~= views(before).push(file@));
        }
        by_name.insert(name.clone(), files);
        i = i + 1;
    }
    assert(named@.take(named@.len() as int) =~= named@);
    let pairs = by_name.pairs_vec();
    proof {
        by_name.lemma_view();
        lemma_map_of_ascending(by_name.pairs());
    }
    let mut out: Vec<(String, Vec<String>)> = Vec::new();
    let ghost mut idx: Seq<int> = Seq::empty();
    let mut k: usize = 0;
    while k < pairs.len()
        invariant
            k <= pairs@.len(),
            pairs@ == by_name.pairs(),
            ascending(keys_of(by_name.pairs())),
            forall|j: int|
                0 <= j < pairs@.len() ==> by_name@.contains_key(#[trigger] pairs@[j].0@) && by_name@[pairs@[j].0@]
                    == pairs@[j].1,
            forall|q: Seq<char>| by_name@.contains_key(q) <==> keys_of(by_name.pairs()).contains(q),
            forall|q: Seq<char>|
                #[trigger] by_name@.contains_key(q) ==> views(by_name@[q]@) == files_named(named@, q),
            forall|q: Seq<char>| files_named(named@, q).len() > 0 ==> #[trigger] by_name@.contains_key(q),
            forall|i: int|
                0 <= i < out@.len() ==> views((#[trigger] out@[i]).1@) == files_named(named@, out@[i].0@)
                    && files_named(named@, out@[i].0@).len() > 1,
            idx.len() == out@.len(),
            forall|i: int| 0 <= i < idx.len() ==> 0 <= #[trigger] idx[i] < k && pairs@[idx[i]].0@ == out@[i].0@,
            forall|a: int, b: int| 0 <= a < b < idx.len() ==> #[trigger] idx[a] < #[trigger] idx[b],
            forall|j: int|
                0 <= j < k && files_named(named@, #[trigger] pairs@[j].0@).len() > 1 ==> keys_of(out@).contains(
                    pairs@[j].0@,
                ),
        decreases pairs@.len() - k,
    {
        assert(by_name@.contains_key(pairs@[k as int].0@));
        if pairs[k].1.len() > 1 {
            let mut files: Vec<String> = Vec::new();
            let mut q: usize = 0;
            while q < pairs[k].1.len()
                invariant
                    k < pairs@.len(),
                    q <= pairs@[k as int].1@.len(),
                    files@ == pairs@[k as int].1@.take(q as int),
                decreases pairs@[k as int].1@.len() - q,
            {
                files.push(pairs[k].1[q].clone());
                assert(files@ =~= pairs@[k as int].1@.take(q + 1));
                q = q + 1;
            }
            assert(files@ =~= pairs@[k as int].1@);
            let ghost before = out@;
            out.push((pairs[k].0.clone(), files));
            proof {
                idx = idx.push(k as int);
                assert(keys_of(out@)[out@.len() - 1] == pairs@[k as int].0@);
                assert forall|j: int|
                    0 <= j < k + 1 && files_named(named@, #[trigger] pairs@[j].0@).len() > 1 implies keys_of(
                    out@,
                ).contains(pairs@[j].0@) by {
                    if j < k {
                        let w = choose|w: int| 0 <= w < keys_of(before).len() && keys_of(before)[w] == pairs@[j].0@;
                        assert(keys_of(out@)[w] == pairs@[j].0@);
                    }
                }
            }
        } else {
            proof {
                assert(views(pairs@[k as int].1@) == files_named(named@, pairs@[k as int].0@));
            }
        }
        k = k + 1;
    }
    proof {
        assert forall|a: int, b: int| 0 <= a < b < out@.len() implies crate::order::before(
            #[trigger] keys_of(out@)[a],
            #[trigger] keys_of(out@)[b],
        ) by {
            assert(keys_of(by_name.pairs())[idx[a]] == pairs@[idx[a]].0@);
            assert(keys_of(by_name.pairs())[idx[b]] == pairs@[idx[b]].0@);
            assert(idx[a] < idx[b]);
        }
        assert forall|name: Seq<char>| files_named(named@, name).len() > 1 implies keys_of(out@).contains(name) by {
            assert(by_name@.contains_key(name));
            let ks = keys_of(by_name.pairs());
            assert(ks.contains(name));
            let j = ks.index_of(name);
            assert(0 <= j < ks.len() && ks[j] == name);
            assert(pairs@[j].0@ == name);
        }
    }
    out
}

/// Which slice of the suite this run is responsible for.
#[derive(Debug, Clone, Copy, PartialEq, Eq, Structural)]
pub struct Shard {
    /// This runner's position, 0-indexed.
    pub index: usize,
    /// How many runners there are in total.
    pub of: usize,
}

/// What `--shard` says: nothing, a shard, or why it cannot be read.
pub open spec fn shard_spec(text: Option<Seq<char>>) -> Result<Option<(nat, nat)>, Seq<char>> {
    match text {
        None => Ok(None),
        Some(t) => match crate::report::lines::index_of_char(t, '/') {
            None => Err("--shard wants `N/M`, and "@ + debug_quoted(t) + " has no `/`"@),
            Some(slash) => {
                let index = t.take(slash);
                let of = t.skip(slash + 1);
                match crate::report::lines::parsed_index(crate::text::trimmed(index)) {
                    None => Err("--shard index "@ + debug_quoted(index) + " is not a number"@),
                    Some(i) => match crate::report::lines::parsed_index(crate::text::trimmed(of)) {
                        None => Err("--shard count "@ + debug_quoted(of) + " is not a number"@),
                        Some(n) => Ok(Some((i, n))),
                    },
                }
            },
        },
    }
}

/// Reads `--shard N/M`.
///
/// Rejected rather than clamped: `--shard 1` or `--shard 2/` is a typo in a CI matrix, and
/// guessing what was meant would run the wrong slice silently.
pub fn parse_shard(text: Option<&str>) -> (r: Result<Option<Shard>, String>)
    ensures
        match r {
            Ok(None) => shard_spec(match text { Some(t) => Some(t@), None => None }) == Ok::<Option<(nat, nat)>, Seq<char>>(None),
            Ok(Some(s)) => shard_spec(match text { Some(t) => Some(t@), None => None }) == Ok::<Option<(nat, nat)>, Seq<char>>(Some((s.index as nat, s.of as nat))),
            Err(e) => shard_spec(match text { Some(t) => Some(t@), None => None }) == Err::<Option<(nat, nat)>, Seq<char>>(e@),
        },
{
    let t = match text {
        None => return Ok(None),
        Some(t) => t,
    };
    let cs = crate::text::chars_of(t);
    let mut slash: usize = 0;
    while slash < cs.len() && cs[slash] != '/'
        invariant
            slash <= cs.len(),
            forall|j: int| 0 <= j < slash ==> cs@[j] != '/',
        decreases cs.len() - slash,
    {
        slash = slash + 1;
    }
    proof {
        crate::report::lines::lemma_index_of_char(cs@, '/');
        if slash < cs.len() {
            crate::report::lines::lemma_first_is_index(cs@, '/', slash as int);
        } else {
            crate::report::lines::lemma_none_is_index(cs@, '/');
        }
    }
    if slash >= cs.len() {
        let mut e = String::from_str("--shard wants `N/M`, and ");
        e.append(quoted(t).as_str());
        e.append(" has no `/`");
        return Err(e);
    }
    let index = crate::text::string_of(&cs_slice(&cs, 0, slash));
    let of = crate::text::string_of(&cs_slice(&cs, slash + 1, cs.len()));
    assert(index@ =~= t@.take(slash as int));
    assert(of@ =~= t@.skip(slash + 1));
    let index_trimmed = crate::text::chars_of(crate::text::trim(index.as_str()).as_str());
    let i = match crate::report::lines::parse_index(&index_trimmed) {
        Some(i) => i,
        None => {
            let mut e = String::from_str("--shard index ");
            e.append(quoted(index.as_str()).as_str());
            e.append(" is not a number");
            return Err(e);
        },
    };
    let of_trimmed = crate::text::chars_of(crate::text::trim(of.as_str()).as_str());
    let n = match crate::report::lines::parse_index(&of_trimmed) {
        Some(n) => n,
        None => {
            let mut e = String::from_str("--shard count ");
            e.append(quoted(of.as_str()).as_str());
            e.append(" is not a number");
            return Err(e);
        },
    };
    Ok(Some(Shard { index: i, of: n }))
}

fn cs_slice(cs: &Vec<char>, from: usize, to: usize) -> (out: Vec<char>)
    requires
        from <= to <= cs@.len(),
    ensures
        out@ == cs@.subrange(from as int, to as int),
{
    let mut out: Vec<char> = Vec::new();
    let mut i = from;
    while i < to
        invariant
            from <= i <= to <= cs@.len(),
            out@ == cs@.subrange(from as int, i as int),
        decreases to - i,
    {
        out.push(cs[i]);
        assert(out@ =~= cs@.subrange(from as int, i + 1));
        i = i + 1;
    }
    out
}

/// How long a case may run, in seconds, or `None` when nothing limits it.
///
/// The case wins over the project, and a `0` on either means no limit.
pub open spec fn limit_spec(project: Option<u64>, case: Option<u64>) -> Option<u64> {
    let chosen = match case {
        Some(c) => Some(c),
        None => project,
    };
    match chosen {
        Some(0) => None,
        Some(seconds) => Some(seconds),
        None => Some(DEFAULT_TIMEOUT_SECONDS),
    }
}

/// How long a case whose own `timeout:` is `case_timeout` may run under `config`, in seconds, or
/// `None` when neither sets a limit.
pub fn limit_for(config: &Config, case_timeout: Option<u64>) -> (limit: Option<u64>)
    ensures
        limit == limit_spec(config.timeout, case_timeout),
{
    let chosen = match case_timeout {
        Some(c) => Some(c),
        None => config.timeout,
    };
    match chosen {
        Some(0) => None,
        Some(seconds) => Some(seconds),
        None => Some(DEFAULT_TIMEOUT_SECONDS),
    }
}

/// Whether a case's path contains `fragment`: the one test both the selection and its error use.
pub open spec fn holds_spec(path: Seq<char>, fragment: Seq<char>) -> bool {
    has(path, fragment)
}

/// Whether a case's path contains `fragment`.
pub fn holds(path: &str, fragment: &str) -> (b: bool)
    ensures
        b == holds_spec(path@, fragment@),
{
    crate::text::contains(path, fragment)
}

/// Whether some path of `paths` contains `fragment`.
pub open spec fn matched_by_any(paths: Seq<String>, fragment: Seq<char>) -> bool {
    exists|i: int| 0 <= i < paths.len() && holds_spec(#[trigger] paths[i]@, fragment)
}

/// Whether `path` contains some fragment of `only`.
pub open spec fn wanted(path: Seq<char>, only: Seq<String>) -> bool {
    exists|i: int| 0 <= i < only.len() && holds_spec(path, #[trigger] only[i]@)
}

/// The fragments of `only` that no path of `paths` contains, in order.
pub open spec fn unmatched(paths: Seq<String>, only: Seq<String>) -> Seq<String>
    decreases only.len(),
{
    if only.len() == 0 {
        Seq::empty()
    } else if matched_by_any(paths, only.last()@) {
        unmatched(paths, only.drop_last())
    } else {
        unmatched(paths, only.drop_last()).push(only.last())
    }
}

/// The paths of `paths` some fragment of `only` matches, in order.
pub open spec fn kept_by(paths: Seq<String>, only: Seq<String>) -> Seq<String>
    decreases paths.len(),
{
    if paths.len() == 0 {
        Seq::empty()
    } else if wanted(paths.last()@, only) {
        kept_by(paths.drop_last(), only).push(paths.last())
    } else {
        kept_by(paths.drop_last(), only)
    }
}

/// The paths at positions `index`, `index + of`, `index + 2 of`, …: one shard of an interleaved
/// partition.
pub open spec fn shard_of(paths: Seq<String>, index: nat, of: nat) -> Seq<String>
    decreases paths.len(),
{
    if paths.len() == 0 {
        Seq::empty()
    } else if (paths.len() - 1) % (of as int) == index {
        shard_of(paths.drop_last(), index, of).push(paths.last())
    } else {
        shard_of(paths.drop_last(), index, of)
    }
}

/// How many paths the shards numbered below `k` hold together.
pub open spec fn shard_total(paths: Seq<String>, of: nat, k: nat) -> nat
    decreases k,
{
    if k == 0 {
        0
    } else {
        shard_total(paths, of, (k - 1) as nat) + shard_of(paths, (k - 1) as nat, of).len()
    }
}

proof fn lemma_shard_total_push(paths: Seq<String>, x: String, of: nat, k: nat)
    requires
        of > 0,
        k <= of,
    ensures
        shard_total(paths.push(x), of, k) == shard_total(paths, of, k) + if (paths.len() as int) % (
        of as int) < k {
            1nat
        } else {
            0nat
        },
    decreases k,
{
    if k > 0 {
        lemma_shard_total_push(paths, x, of, (k - 1) as nat);
        let pushed = paths.push(x);
        assert(pushed.drop_last() =~= paths);
        assert(pushed.last() == x);
    }
}

/// Every case lands in exactly one shard: the shards of an interleaved partition hold, together,
/// exactly as many paths as there are.
pub proof fn law_shards_partition(paths: Seq<String>, of: nat)
    requires
        of > 0,
    ensures
        shard_total(paths, of, of) == paths.len(),
    decreases paths.len(),
{
    if paths.len() == 0 {
        lemma_shard_total_empty(paths, of, of);
    } else {
        law_shards_partition(paths.drop_last(), of);
        lemma_shard_total_push(paths.drop_last(), paths.last(), of, of);
        assert(paths.drop_last().push(paths.last()) =~= paths);
        assert(((paths.len() - 1) as int) % (of as int) < of);
    }
}

proof fn lemma_shard_total_empty(paths: Seq<String>, of: nat, k: nat)
    requires
        paths.len() == 0,
    ensures
        shard_total(paths, of, k) == 0,
    decreases k,
{
    if k > 0 {
        lemma_shard_total_empty(paths, of, (k - 1) as nat);
    }
}

/// What the filter leaves of `discovered`: everything when there is no filter.
pub open spec fn filtered(discovered: Seq<String>, only: Seq<String>) -> Seq<String> {
    if only.len() == 0 {
        discovered
    } else {
        kept_by(discovered, only)
    }
}

/// The cases this run should take, from everything that was discovered.
///
/// **The filter applies before the shard**, so a partition is of what was asked for. Every
/// fragment has to match something, or the run is refused naming every one that did not. Sharding
/// is interleaved, not contiguous.
pub fn select(discovered: Vec<String>, shard: Option<Shard>, only: &[String]) -> (r: Result<
    Vec<String>,
    ConfigError,
>)
    ensures
        only@.len() > 0 && unmatched(discovered@, only@).len() > 0 ==> (r matches Err(
            ConfigError::NothingSelected { fragments },
        ) && fragments@ == unmatched(discovered@, only@)),
        (only@.len() == 0 || unmatched(discovered@, only@).len() == 0) && shard is Some && (shard->0.of
            == 0 || shard->0.index >= shard->0.of) ==> (r matches Err(
            ConfigError::ShardOutOfRange { index, of },
        ) && index == shard->0.index && of == shard->0.of),
        (only@.len() == 0 || unmatched(discovered@, only@).len() == 0) && shard is None ==> (r matches Ok(
            v,
        ) && v@ == filtered(discovered@, only@)),
        (only@.len() == 0 || unmatched(discovered@, only@).len() == 0) && shard is Some && shard->0.of
            > 0 && shard->0.index < shard->0.of ==> (r matches Ok(v) && v@ == shard_of(
            filtered(discovered@, only@),
            shard->0.index as nat,
            shard->0.of as nat,
        )),
{
    let kept: Vec<String> = if only.len() == 0 {
        discovered
    } else {
        let mut missing: Vec<String> = Vec::new();
        let mut i: usize = 0;
        while i < only.len()
            invariant
                i <= only@.len(),
                missing@ == unmatched(discovered@, only@.take(i as int)),
            decreases only@.len() - i,
        {
            assert(only@.take(i + 1).drop_last() =~= only@.take(i as int));
            let mut found = false;
            let mut j: usize = 0;
            while j < discovered.len() && !found
                invariant
                    i < only@.len(),
                    j <= discovered@.len(),
                    found ==> matched_by_any(discovered@, only@[i as int]@),
                    !found ==> forall|q: int| 0 <= q < j ==> !holds_spec(#[trigger] discovered@[q]@, only@[i as int]@),
                decreases discovered@.len() - j, if found { 0int } else { 1int },
            {
                if holds(discovered[j].as_str(), only[i].as_str()) {
                    found = true;
                } else {
                    j = j + 1;
                }
            }
            if !found {
                missing.push(only[i].clone());
            }
            i = i + 1;
        }
        assert(only@.take(only@.len() as int) =~= only@);
        if missing.len() > 0 {
            return Err(ConfigError::NothingSelected { fragments: missing });
        }
        let mut kept: Vec<String> = Vec::new();
        let mut p: usize = 0;
        while p < discovered.len()
            invariant
                p <= discovered@.len(),
                kept@ == kept_by(discovered@.take(p as int), only@),
            decreases discovered@.len() - p,
        {
            assert(discovered@.take(p + 1).drop_last() =~= discovered@.take(p as int));
            let mut any = false;
            let mut f: usize = 0;
            while f < only.len() && !any
                invariant
                    p < discovered@.len(),
                    f <= only@.len(),
                    any ==> wanted(discovered@[p as int]@, only@),
                    !any ==> forall|q: int| 0 <= q < f ==> !holds_spec(discovered@[p as int]@, #[trigger] only@[q]@),
                decreases only@.len() - f, if any { 0int } else { 1int },
            {
                if holds(discovered[p].as_str(), only[f].as_str()) {
                    any = true;
                } else {
                    f = f + 1;
                }
            }
            if any {
                kept.push(discovered[p].clone());
            }
            p = p + 1;
        }
        assert(discovered@.take(discovered@.len() as int) =~= discovered@);
        kept
    };
    match shard {
        None => Ok(kept),
        Some(s) => {
            if s.of == 0 || s.index >= s.of {
                return Err(ConfigError::ShardOutOfRange { index: s.index, of: s.of });
            }
            let mut part: Vec<String> = Vec::new();
            let mut at: usize = 0;
            while at < kept.len()
                invariant
                    at <= kept@.len(),
                    s.of > 0,
                    part@ == shard_of(kept@.take(at as int), s.index as nat, s.of as nat),
                decreases kept@.len() - at,
            {
                assert(kept@.take(at + 1).drop_last() =~= kept@.take(at as int));
                if at % s.of == s.index {
                    part.push(kept[at].clone());
                }
                at = at + 1;
            }
            assert(kept@.take(kept@.len() as int) =~= kept@);
            Ok(part)
        },
    }
}

} // verus!
