//! Isolation: the directory a case runs in, what its subject may see, and what it did there.
//!
//! The invariant this module carries: **a case never sees the real home directory.** `HOME` and
//! every `XDG_*` directory point inside the isolated root, and nothing a case declares can point
//! them elsewhere. Creating the directories, laying the symlinks and reserving the ports is the
//! caller's work; what they are called and what the subject's environment says is decided here.

pub mod snapshot;
pub mod paths;

use vstd::prelude::*;
use crate::case::Case;
use crate::fake::rule::{Match, Response, Rule, Scenario, passes_through, catch_all};
use crate::iso::paths::{PathError, expand, expand_spec, unknown_error, path_error_text};
use crate::strmap::StrMap;
use crate::text::{begins, decimal, joined, split_on, views};

verus! {

/// What can go wrong while preparing isolation.
#[derive(Debug)]
pub enum IsoError {
    /// A directory or file inside the isolated root could not be created.
    Io {
        /// The path that could not be created.
        path: String,
        /// The underlying failure.
        source: std::io::Error,
    },
    /// The scenario could not be serialised for the fake.
    Scenario(serde_yaml_ng::Error),
    /// Passthrough is refused here and a rule has nothing else to answer with.
    NoFallback {
        /// The binary whose rule has no fallback.
        bin: String,
    },
    /// `setup.env` tries to redefine something isolation owns.
    ReservedVariable {
        /// The variable the case tried to redefine.
        name: String,
        /// Everything isolation defines, comma-separated.
        available: String,
    },
    /// `setup.env` sets something the project's configuration asks to remove.
    ClearedVariable {
        /// The contradicted variable.
        name: String,
    },
    /// A value in `setup.env` names something isolation does not define.
    Variable {
        /// The variable being set.
        name: String,
        /// Why its value could not be resolved.
        source: PathError,
    },
}

/// The sentence for a rule that may not pass through and has nothing else to say.
pub open spec fn no_fallback_text(bin: Seq<char>) -> Seq<char> {
    "this project refuses passthrough, and the rule for `"@ + bin
        + "` has no answer of its own. Give it a `stdout` (and an `exit` if it should fail) so it can answer where the real tool cannot run"@
}

/// The sentence for a case variable that would redefine one of isolation's own.
pub open spec fn reserved_text(name: Seq<char>, available: Seq<char>) -> Seq<char> {
    "setup.env cannot set `"@ + name
        + "`: isolation defines it, and a case that could point it elsewhere would undo the isolation it is running in. Isolation owns "@
        + available
}

/// The sentence for a case variable the project asks to clear.
pub open spec fn cleared_text(name: Seq<char>) -> Seq<char> {
    "setup.env sets `"@ + name
        + "`, which this project's `clear_env:` asks to remove. An adapter clears after it sets, so the value would disappear without a word. Take it out of `clear_env` or out of the case — the two cannot both be meant"@
}

impl IsoError {
    /// What the failure says.
    pub fn message(&self) -> (text: String)
        ensures
            self matches IsoError::Io { path, .. } ==> begins(
                text@,
                "preparing the isolated environment at "@ + path@ + ": "@,
            ),
            self is Scenario ==> begins(text@, "writing the scenario for the fake: "@),
            self matches IsoError::NoFallback { bin } ==> text@ == no_fallback_text(bin@),
            self matches IsoError::ReservedVariable { name, available } ==> text@ == reserved_text(
                name@,
                available@,
            ),
            self matches IsoError::ClearedVariable { name } ==> text@ == cleared_text(name@),
            self matches IsoError::Variable { name, source } ==> text@ == "setup.env `"@ + name@ + "`: "@
                + path_error_text(*source),
    {
        match self {
            IsoError::Io { path, source } => {
                let mut out = String::from_str("preparing the isolated environment at ");
                out.append(path.as_str());
                out.append(": ");
                let ghost head = out@;
                out.append(crate::ext::io_error_text(source).as_str());
                assert(out@.subrange(0, head.len() as int) =~= head);
                out
            },
            IsoError::Scenario(source) => {
                let mut out = String::from_str("writing the scenario for the fake: ");
                let ghost head = out@;
                out.append(crate::config::yaml_error_text(source).as_str());
                assert(out@.subrange(0, head.len() as int) =~= head);
                out
            },
            IsoError::NoFallback { bin } => {
                let mut out = String::from_str("this project refuses passthrough, and the rule for `");
                out.append(bin.as_str());
                out.append(
                    "` has no answer of its own. Give it a `stdout` (and an `exit` if it should fail) so it can answer where the real tool cannot run",
                );
                out
            },
            IsoError::ReservedVariable { name, available } => {
                let mut out = String::from_str("setup.env cannot set `");
                out.append(name.as_str());
                out.append(
                    "`: isolation defines it, and a case that could point it elsewhere would undo the isolation it is running in. Isolation owns ",
                );
                out.append(available.as_str());
                out
            },
            IsoError::ClearedVariable { name } => {
                let mut out = String::from_str("setup.env sets `");
                out.append(name.as_str());
                out.append(
                    "`, which this project's `clear_env:` asks to remove. An adapter clears after it sets, so the value would disappear without a word. Take it out of `clear_env` or out of the case — the two cannot both be meant",
                );
                out
            },
            IsoError::Variable { name, source } => {
                let mut out = String::from_str("setup.env `");
                out.append(name.as_str());
                out.append("`: ");
                out.append(source.message().as_str());
                out
            },
        }
    }
}

/// `rel` under the directory `base`, the way a path is joined: one `/` between them.
pub open spec fn within(base: Seq<char>, rel: Seq<char>) -> Seq<char> {
    if base.len() == 0 || base.last() == '/' {
        base + rel
    } else {
        base + "/"@ + rel
    }
}

/// `rel` under the directory `base`, joined as a path is.
pub fn join_path(base: &str, rel: &str) -> (out: String)
    ensures
        out@ == within(base@, rel@),
{
    let cs = crate::text::chars_of(base);
    let mut out = String::from_str(base);
    if cs.len() > 0 && cs[cs.len() - 1] != '/' {
        out.append("/");
    }
    out.append(rel);
    proof {
        reveal_strlit("/");
    }
    out
}

/// Where everything of one isolation lives.
#[derive(Debug)]
pub struct Layout {
    /// The isolated root, and the subject's `HOME`.
    pub root: String,
    /// The directory of symlinks placed first on `PATH`.
    pub bin: String,
    /// Where the fake keeps its call counters.
    pub state: String,
    /// `XDG_CONFIG_HOME`.
    pub config_home: String,
    /// `XDG_DATA_HOME`.
    pub data_home: String,
    /// `XDG_STATE_HOME`.
    pub state_home: String,
    /// `XDG_CACHE_HOME`.
    pub cache_home: String,
    /// The scenario the fake reads.
    pub scenario: String,
    /// The journal the fake appends its calls to.
    pub journal: String,
}

/// Every path of `l` is where isolation puts it under `l.root`.
pub open spec fn laid_out(l: Layout) -> bool {
    &&& l.bin@ == within(l.root@, "bin"@)
    &&& l.state@ == within(l.root@, "state"@)
    &&& l.config_home@ == within(l.root@, ".config"@)
    &&& l.data_home@ == within(l.root@, ".local/share"@)
    &&& l.state_home@ == within(l.root@, ".local/state"@)
    &&& l.cache_home@ == within(l.root@, ".cache"@)
    &&& l.scenario@ == within(l.root@, "scenario.yaml"@)
    &&& l.journal@ == within(l.root@, "journal.jsonl"@)
}

impl Layout {
    /// The layout of an isolation rooted at `root`.
    pub fn under(root: &str) -> (l: Layout)
        ensures
            l.root@ == root@,
            laid_out(l),
    {
        Layout {
            root: String::from_str(root),
            bin: join_path(root, "bin"),
            state: join_path(root, "state"),
            config_home: join_path(root, ".config"),
            data_home: join_path(root, ".local/share"),
            state_home: join_path(root, ".local/state"),
            cache_home: join_path(root, ".cache"),
            scenario: join_path(root, "scenario.yaml"),
            journal: join_path(root, "journal.jsonl"),
        }
    }

    /// The directories to create before anything runs, in the order they are created.
    pub fn directories(&self) -> (dirs: Vec<String>)
        ensures
            views(dirs@) == seq![
                self.bin@,
                self.state@,
                self.config_home@,
                self.data_home@,
                self.state_home@,
                self.cache_home@,
            ],
    {
        let mut dirs: Vec<String> = Vec::new();
        dirs.push(self.bin.clone());
        dirs.push(self.state.clone());
        dirs.push(self.config_home.clone());
        dirs.push(self.data_home.clone());
        dirs.push(self.state_home.clone());
        dirs.push(self.cache_home.clone());
        assert(views(dirs@) =~= seq![
            self.bin@,
            self.state@,
            self.config_home@,
            self.data_home@,
            self.state_home@,
            self.cache_home@,
        ]);
        dirs
    }
}

/// The pairs of an environment, as text.
pub open spec fn pairs_view(env: Seq<(String, String)>) -> Seq<(Seq<char>, Seq<char>)> {
    env.map_values(|p: (String, String)| (p.0@, p.1@))
}

/// What isolation itself defines, in order: the search path, the home and `XDG_*` directories,
/// the fake's channels, the two reserved ports and the project.
pub open spec fn isolation_env(
    l: Layout,
    path: Seq<char>,
    case: Seq<char>,
    port: nat,
    fake_port: nat,
    project: Seq<char>,
) -> Seq<(Seq<char>, Seq<char>)> {
    seq![
        ("PATH"@, path),
        ("HOME"@, l.root@),
        ("XDG_CONFIG_HOME"@, l.config_home@),
        ("XDG_DATA_HOME"@, l.data_home@),
        ("XDG_STATE_HOME"@, l.state_home@),
        ("XDG_CACHE_HOME"@, l.cache_home@),
        ("GAVELDROP_SCENARIO"@, l.scenario@),
        ("GAVELDROP_STATE"@, l.state@),
        ("GAVELDROP_JOURNAL"@, l.journal@),
        ("GAVELDROP_DIR"@, l.root@),
        ("GAVELDROP_CASE"@, case),
        ("GAVELDROP_PORT"@, decimal(port)),
        ("GAVELDROP_FAKE_PORT"@, decimal(fake_port)),
        ("GAVELDROP_PROJECT"@, project),
    ]
}

fn pair(key: &str, value: &str) -> (p: (String, String))
    ensures
        p.0@ == key@,
        p.1@ == value@,
{
    (String::from_str(key), String::from_str(value))
}

/// The variables isolation sets on the subject, before the case adds its own.
///
/// `path` is the whole search path, `project` the project root made absolute, and the two ports
/// those reserved for the subject and for a faked service.
pub fn environment(
    l: &Layout,
    path: String,
    case_name: &str,
    port: u16,
    fake_port: u16,
    project: &str,
) -> (env: Vec<(String, String)>)
    ensures
        pairs_view(env@) == isolation_env(*l, path@, case_name@, port as nat, fake_port as nat, project@),
{
    let mut env: Vec<(String, String)> = Vec::new();
    let ghost p = path@;
    env.push((String::from_str("PATH"), path));
    env.push(pair("HOME", l.root.as_str()));
    env.push(pair("XDG_CONFIG_HOME", l.config_home.as_str()));
    env.push(pair("XDG_DATA_HOME", l.data_home.as_str()));
    env.push(pair("XDG_STATE_HOME", l.state_home.as_str()));
    env.push(pair("XDG_CACHE_HOME", l.cache_home.as_str()));
    env.push(pair(crate::fake::env::SCENARIO, l.scenario.as_str()));
    env.push(pair(crate::fake::env::STATE, l.state.as_str()));
    env.push(pair(crate::fake::env::JOURNAL, l.journal.as_str()));
    env.push(pair(crate::fake::env::DIR, l.root.as_str()));
    env.push(pair(crate::fake::env::CASE, case_name));
    let port_text = crate::text::decimal_string(port as u64);
    let fake_port_text = crate::text::decimal_string(fake_port as u64);
    env.push(pair("GAVELDROP_PORT", port_text.as_str()));
    env.push(pair("GAVELDROP_FAKE_PORT", fake_port_text.as_str()));
    env.push(pair("GAVELDROP_PROJECT", project));
    assert(pairs_view(env@) =~= isolation_env(*l, p, case_name@, port as nat, fake_port as nat, project@));
    env
}

/// The tools of `bins` that get a symlink to the fake: every one the case does not hide.
///
/// `hide` wins over `fake.bins`: the more specific of the two decides.
pub open spec fn unhidden(bins: Seq<Seq<char>>, hide: Seq<Seq<char>>) -> Seq<Seq<char>>
    decreases bins.len(),
{
    if bins.len() == 0 {
        Seq::empty()
    } else if hide.contains(bins.last()) {
        unhidden(bins.drop_last(), hide)
    } else {
        unhidden(bins.drop_last(), hide).push(bins.last())
    }
}

fn listed_in(names: &[String], name: &str) -> (b: bool)
    ensures
        b == views(names@).contains(name@),
{
    let mut i: usize = 0;
    while i < names.len()
        invariant
            i <= names@.len(),
            forall|j: int| 0 <= j < i ==> names@[j]@ != name@,
        decreases names@.len() - i,
    {
        if crate::order::same(names[i].as_str(), name) {
            assert(views(names@)[i as int] == name@);
            return true;
        }
        i = i + 1;
    }
    proof {
        if views(names@).contains(name@) {
            let k = choose|k: int| 0 <= k < views(names@).len() && views(names@)[k] == name@;
            assert(names@[k]@ == name@);
        }
    }
    false
}

/// The faked tools that get a symlink to the fake, in the order the project lists them.
pub fn linked(faked_bins: &[String], hide: &[String]) -> (out: Vec<String>)
    ensures
        views(out@) == unhidden(views(faked_bins@), views(hide@)),
{
    let mut out: Vec<String> = Vec::new();
    let mut i: usize = 0;
    while i < faked_bins.len()
        invariant
            i <= faked_bins@.len(),
            views(out@) == unhidden(views(faked_bins@).take(i as int), views(hide@)),
        decreases faked_bins@.len() - i,
    {
        let ghost bins = views(faked_bins@).take(i + 1);
        assert(bins.drop_last() =~= views(faked_bins@).take(i as int));
        assert(bins.last() == faked_bins@[i as int]@);
        if !listed_in(hide, faked_bins[i].as_str()) {
            let ghost before = out@;
            out.push(faked_bins[i].clone());
            assert(views(out@) =~= views(before).push(faked_bins@[i as int]@));
        }
        i = i + 1;
    }
    assert(views(faked_bins@).take(faked_bins@.len() as int) =~= views(faked_bins@));
    out
}

/// The directories of an inherited search path, in order: the text split at every `:`.
pub fn directories(inherited: &str) -> (dirs: Vec<String>)
    ensures
        views(dirs@) == split_on(inherited@, ':'),
{
    let cs = crate::text::chars_of(inherited);
    let parts = crate::text::split_chars(&cs, ':');
    let mut dirs: Vec<String> = Vec::new();
    let mut i: usize = 0;
    while i < parts.len()
        invariant
            i <= parts@.len(),
            parts@.map_values(|p: Vec<char>| p@) == split_on(inherited@, ':'),
            views(dirs@) == parts@.map_values(|p: Vec<char>| p@).take(i as int),
        decreases parts@.len() - i,
    {
        let ghost before = dirs@;
        let piece = crate::text::string_of(&parts[i]);
        assert(parts@.map_values(|p: Vec<char>| p@)[i as int] == parts@[i as int]@);
        dirs.push(piece);
        assert(views(dirs@) =~= views(before).push(piece@));
        assert(parts@.map_values(|p: Vec<char>| p@).take(i + 1) =~= parts@.map_values(|p: Vec<char>| p@).take(
            i as int,
        ).push(parts@[i as int]@));
        i = i + 1;
    }
    assert(parts@.map_values(|p: Vec<char>| p@).take(parts@.len() as int) =~= parts@.map_values(
        |p: Vec<char>| p@,
    ));
    dirs
}

/// The directories of `dirs` kept on the search path: every one that holds none of the hidden
/// tools. `hiding[i]` says whether `dirs[i]` holds one.
pub open spec fn kept(dirs: Seq<Seq<char>>, hiding: Seq<bool>) -> Seq<Seq<char>>
    decreases dirs.len(),
{
    if dirs.len() == 0 || hiding.len() != dirs.len() {
        Seq::empty()
    } else if hiding.last() {
        kept(dirs.drop_last(), hiding.drop_last())
    } else {
        kept(dirs.drop_last(), hiding.drop_last()).push(dirs.last())
    }
}

/// The entries of the subject's search path: the fake's directory first, then what it inherits.
pub open spec fn searched(bin: Seq<char>, dirs: Seq<Seq<char>>, hiding: Seq<bool>) -> Seq<Seq<char>> {
    seq![bin] + kept(dirs, hiding)
}

/// Some entry holds the separator, so no search path can be written from them.
pub open spec fn unjoinable(entries: Seq<Seq<char>>) -> bool {
    exists|i: int| 0 <= i < entries.len() && entries[i].contains(':')
}

/// A failure of kind `InvalidInput` carrying `text`.
///
/// Calls `std::io::Error::new`. The error is only carried to the caller, so nothing is stated of it.
#[verifier::external_body]
fn invalid_input(text: &str) -> std::io::Error {
    std::io::Error::new(std::io::ErrorKind::InvalidInput, text)
}

fn has_separator(text: &str) -> (b: bool)
    ensures
        b == text@.contains(':'),
{
    let cs = crate::text::chars_of(text);
    let mut i: usize = 0;
    while i < cs.len()
        invariant
            i <= cs@.len(),
            cs@ == text@,
            forall|j: int| 0 <= j < i ==> cs@[j] != ':',
        decreases cs@.len() - i,
    {
        if cs[i] == ':' {
            return true;
        }
        i = i + 1;
    }
    false
}

/// The subject's whole search path: `bin` first, then every inherited directory that holds no
/// hidden tool, joined with `:`.
///
/// Fails, naming `bin`, when an entry holds the separator itself — such a path cannot be written.
pub fn search_path(bin: &str, dirs: &[String], hiding: &[bool]) -> (r: Result<String, IsoError>)
    requires
        dirs@.len() == hiding@.len(),
    ensures
        r is Ok <==> !unjoinable(searched(bin@, views(dirs@), hiding@)),
        r matches Ok(p) ==> p@ == joined(searched(bin@, views(dirs@), hiding@), ":"@),
        r matches Err(e) ==> e matches IsoError::Io { path, .. } && path@ == bin@,
{
    let mut entries: Vec<String> = Vec::new();
    entries.push(String::from_str(bin));
    let mut i: usize = 0;
    assert(views(entries@) =~= seq![bin@] + kept(views(dirs@).take(0), hiding@.take(0)));
    while i < dirs.len()
        invariant
            i <= dirs@.len(),
            dirs@.len() == hiding@.len(),
            views(entries@) == seq![bin@] + kept(views(dirs@).take(i as int), hiding@.take(i as int)),
        decreases dirs@.len() - i,
    {
        let ghost d = views(dirs@).take(i + 1);
        let ghost h = hiding@.take(i + 1);
        assert(d.drop_last() =~= views(dirs@).take(i as int));
        assert(h.drop_last() =~= hiding@.take(i as int));
        assert(d.last() == dirs@[i as int]@);
        if !hiding[i] {
            let ghost before = entries@;
            entries.push(dirs[i].clone());
            assert(views(entries@) =~= views(before).push(dirs@[i as int]@));
        }
        i = i + 1;
    }
    assert(views(dirs@).take(dirs@.len() as int) =~= views(dirs@));
    assert(hiding@.take(dirs@.len() as int) =~= hiding@);
    let ghost all = searched(bin@, views(dirs@), hiding@);
    let mut k: usize = 0;
    while k < entries.len()
        invariant
            k <= entries@.len(),
            views(entries@) == all,
            all == searched(bin@, views(dirs@), hiding@),
            forall|j: int| 0 <= j < k ==> !(#[trigger] views(entries@)[j]).contains(':'),
        decreases entries@.len() - k,
    {
        if has_separator(entries[k].as_str()) {
            assert(views(entries@)[k as int] == entries@[k as int]@);
            assert(all[k as int].contains(':'));
            assert(unjoinable(all));
            return Err(
                IsoError::Io {
                    path: String::from_str(bin),
                    source: invalid_input("a directory on PATH contains the path separator"),
                },
            );
        }
        k = k + 1;
    }
    Ok(crate::text::join(&entries, ":"))
}

/// The variables of `env` by name, as a map: a later pair overrides an earlier one.
pub open spec fn env_map(env: Seq<(String, String)>) -> Map<Seq<char>, String>
    decreases env.len(),
{
    if env.len() == 0 {
        Map::empty()
    } else {
        env_map(env.drop_last()).insert(env.last().0@, env.last().1)
    }
}

/// The variables of `env` by name, as a case may use them in a path or a value.
///
/// Exactly what isolation defines, and nothing from the environment of whoever runs the tests.
pub fn defined(env: &Vec<(String, String)>) -> (m: StrMap<String>)
    ensures
        m@ == env_map(env@),
{
    let mut m: StrMap<String> = StrMap::new();
    let mut d: usize = 0;
    assert(env@.take(0).len() == 0);
    while d < env.len()
        invariant
            d <= env@.len(),
            m@ == env_map(env@.take(d as int)),
        decreases env@.len() - d,
    {
        assert(env@.take(d + 1).drop_last() =~= env@.take(d as int));
        m.insert(env[d].0.clone(), env[d].1.clone());
        d = d + 1;
    }
    assert(env@.take(env@.len() as int) =~= env@);
    m
}

/// The value the subject sees for `key`: that of the last pair naming it.
pub open spec fn value_of(env: Seq<(Seq<char>, Seq<char>)>, key: Seq<char>) -> Option<Seq<char>>
    decreases env.len(),
{
    if env.len() == 0 {
        None
    } else if env.last().0 == key {
        Some(env.last().1)
    } else {
        value_of(env.drop_last(), key)
    }
}

/// The case may set `key` to `pattern`: isolation does not define it, the project does not clear
/// it, and every variable the pattern names is one isolation defines.
pub open spec fn settable(
    env: Seq<(String, String)>,
    cleared: Seq<Seq<char>>,
    key: Seq<char>,
    pattern: Seq<char>,
) -> bool {
    &&& !env_map(env).contains_key(key)
    &&& !cleared.contains(key)
    &&& expand_spec(pattern, env_map(env)) is Ok
}

/// The pairs the case adds: each of its keys, with its pattern expanded against what isolation
/// defines.
pub open spec fn added(env: Seq<(String, String)>, own: Seq<(String, String)>) -> Seq<(Seq<char>, Seq<char>)> {
    own.map_values(|p: (String, String)| (p.0@, expand_spec(p.1@, env_map(env))->Ok_0))
}

/// `e` is how the case's variable `key`, set to `pattern`, is refused: redefining isolation's,
/// contradicting `clear_env`, or naming what isolation does not define — checked in that order.
pub open spec fn refusal(
    env: Seq<(String, String)>,
    cleared: Seq<Seq<char>>,
    key: Seq<char>,
    pattern: Seq<char>,
    e: IsoError,
) -> bool {
    if env_map(env).contains_key(key) {
        e matches IsoError::ReservedVariable { name, available } && name@ == key && exists|m: StrMap<String>|
            m@ == env_map(env) && available@ == joined(m.keys(), ", "@)
    } else if cleared.contains(key) {
        e matches IsoError::ClearedVariable { name } && name@ == key
    } else {
        e matches IsoError::Variable { name, source } && name@ == key && exists|m: StrMap<String>|
            m@ == env_map(env) && unknown_error(
                expand_spec(pattern, env_map(env))->Err_0,
                pattern,
                m,
                source,
            )
    }
}

/// Adds the variables the case declared to isolation's own, refusing the ways it could do harm
/// quietly.
///
/// Each value is expanded against what isolation defines, and only that: one case variable cannot
/// name another. A name isolation defines cannot be redefined, and a name the project clears cannot
/// be set. The first variable refused, in name order, is the error.
#[verifier::loop_isolation(false)]
pub fn with_the_cases_own(env: Vec<(String, String)>, case: &Case, clear_env: &[String]) -> (r: Result<
    Vec<(String, String)>,
    IsoError,
>)
    ensures
        r is Ok <==> forall|i: int|
            0 <= i < case.setup.env.pairs().len() ==> settable(
                env@,
                views(clear_env@),
                (#[trigger] case.setup.env.pairs()[i]).0@,
                case.setup.env.pairs()[i].1@,
            ),
        r matches Ok(out) ==> out@.take(env@.len() as int) == env@ && pairs_view(out@) == pairs_view(env@)
            + added(env@, case.setup.env.pairs()),
        r matches Err(e) ==> exists|i: int|
            0 <= i < case.setup.env.pairs().len() && (forall|j: int|
                0 <= j < i ==> settable(
                    env@,
                    views(clear_env@),
                    (#[trigger] case.setup.env.pairs()[j]).0@,
                    case.setup.env.pairs()[j].1@,
                )) && refusal(
                env@,
                views(clear_env@),
                case.setup.env.pairs()[i].0@,
                case.setup.env.pairs()[i].1@,
                e,
            ),
{
    let own = case.setup.env.pairs_vec();
    if own.len() == 0 {
        assert(pairs_view(env@) + added(env@, case.setup.env.pairs()) =~= pairs_view(env@));
        assert(env@.take(env@.len() as int) =~= env@);
        return Ok(env);
    }
    let defined = defined(&env);
    let ghost original = env@;
    let mut out = env;
    let mut i: usize = 0;
    while i < own.len()
        invariant
            i <= own@.len(),
            own@ == case.setup.env.pairs(),
            defined@ == env_map(original),
            out@.take(original.len() as int) == original,
            pairs_view(out@) == pairs_view(original) + added(original, own@.take(i as int)),
            forall|j: int|
                0 <= j < i ==> settable(original, views(clear_env@), (#[trigger] own@[j]).0@, own@[j].1@),
        decreases own@.len() - i,
    {
        let key = &own[i].0;
        let pattern = &own[i].1;
        if defined.get(key.as_str()).is_some() {
            let available = crate::iso::paths::available_names(&defined);
            let e = IsoError::ReservedVariable { name: key.clone(), available };
            assert(refusal(original, views(clear_env@), own@[i as int].0@, own@[i as int].1@, e));
            assert(!settable(original, views(clear_env@), own@[i as int].0@, own@[i as int].1@));
            return Err(e);
        }
        if listed_in(clear_env, key.as_str()) {
            let e = IsoError::ClearedVariable { name: key.clone() };
            assert(refusal(original, views(clear_env@), own@[i as int].0@, own@[i as int].1@, e));
            return Err(e);
        }
        match expand(pattern.as_str(), &defined) {
            Ok(value) => {
                let ghost before = out@;
                out.push((key.clone(), value));
                proof {
                    assert(out@.take(original.len() as int) =~= before.take(original.len() as int));
                    assert(own@.take(i + 1) =~= own@.take(i as int).push(own@[i as int]));
                    assert(added(original, own@.take(i + 1)) =~= added(original, own@.take(i as int)).push(
                        (own@[i as int].0@, expand_spec(own@[i as int].1@, env_map(original))->Ok_0),
                    ));
                    assert(pairs_view(out@) =~= pairs_view(before).push((key@, value@)));
                }
            },
            Err(source) => {
                let e = IsoError::Variable { name: key.clone(), source };
                assert(refusal(original, views(clear_env@), own@[i as int].0@, own@[i as int].1@, e));
                return Err(e);
            },
        }
        i = i + 1;
    }
    assert(own@.take(own@.len() as int) =~= own@);
    Ok(out)
}

proof fn lemma_value_of_append(a: Seq<(Seq<char>, Seq<char>)>, b: Seq<(Seq<char>, Seq<char>)>, key: Seq<char>)
    requires
        forall|i: int| 0 <= i < b.len() ==> (#[trigger] b[i]).0 != key,
    ensures
        value_of(a + b, key) == value_of(a, key),
    decreases b.len(),
{
    if b.len() == 0 {
        assert(a + b =~= a);
    } else {
        assert((a + b).drop_last() =~= a + b.drop_last());
        assert((a + b).last() == b.last());
        lemma_value_of_append(a, b.drop_last(), key);
    }
}

proof fn lemma_env_map_holds(env: Seq<(String, String)>, i: int)
    requires
        0 <= i < env.len(),
    ensures
        env_map(env).contains_key(env[i].0@),
    decreases env.len(),
{
    if i < env.len() - 1 {
        lemma_env_map_holds(env.drop_last(), i);
    }
}

proof fn lemma_added_avoids(env: Seq<(String, String)>, own: Seq<(String, String)>, cleared: Seq<Seq<char>>, k: int)
    requires
        0 <= k < env.len(),
        forall|i: int| 0 <= i < own.len() ==> settable(env, cleared, (#[trigger] own[i]).0@, own[i].1@),
    ensures
        forall|i: int| 0 <= i < own.len() ==> (#[trigger] added(env, own)[i]).0 != env[k].0@,
{
    lemma_env_map_holds(env, k);
    assert forall|i: int| 0 <= i < own.len() implies (#[trigger] added(env, own)[i]).0 != env[k].0@ by {
        assert(settable(env, cleared, own[i].0@, own[i].1@));
    }
}

/// A path joined under `base` lies under `base`.
pub proof fn law_within_stays_under(base: Seq<char>, rel: Seq<char>)
    ensures
        begins(within(base, rel), base),
{
    assert(within(base, rel).subrange(0, base.len() as int) =~= base);
}

/// Whatever a case declares, its subject sees the isolated root as `HOME` and every `XDG_*`
/// directory under it.
///
/// `env` is what isolation defines and `own` the case's variables, all accepted — which is when
/// adding them succeeds. None of them can be one isolation defines, so none can move these.
pub proof fn law_a_case_never_sees_the_real_home(
    l: Layout,
    path: Seq<char>,
    case_name: Seq<char>,
    port: nat,
    fake_port: nat,
    project: Seq<char>,
    env: Seq<(String, String)>,
    own: Seq<(String, String)>,
    cleared: Seq<Seq<char>>,
)
    requires
        laid_out(l),
        pairs_view(env) == isolation_env(l, path, case_name, port, fake_port, project),
        forall|i: int| 0 <= i < own.len() ==> settable(env, cleared, (#[trigger] own[i]).0@, own[i].1@),
    ensures
        value_of(pairs_view(env) + added(env, own), "HOME"@) == Some(l.root@),
        value_of(pairs_view(env) + added(env, own), "XDG_CONFIG_HOME"@) == Some(within(l.root@, ".config"@)),
        value_of(pairs_view(env) + added(env, own), "XDG_DATA_HOME"@) == Some(within(l.root@, ".local/share"@)),
        value_of(pairs_view(env) + added(env, own), "XDG_STATE_HOME"@) == Some(within(l.root@, ".local/state"@)),
        value_of(pairs_view(env) + added(env, own), "XDG_CACHE_HOME"@) == Some(within(l.root@, ".cache"@)),
{
    let v = pairs_view(env);
    let a = added(env, own);
    reveal_strlit("PATH");
    reveal_strlit("HOME");
    reveal_strlit("XDG_CONFIG_HOME");
    reveal_strlit("XDG_DATA_HOME");
    reveal_strlit("XDG_STATE_HOME");
    reveal_strlit("XDG_CACHE_HOME");
    reveal_strlit("GAVELDROP_SCENARIO");
    reveal_strlit("GAVELDROP_STATE");
    reveal_strlit("GAVELDROP_JOURNAL");
    reveal_strlit("GAVELDROP_DIR");
    reveal_strlit("GAVELDROP_CASE");
    reveal_strlit("GAVELDROP_PORT");
    reveal_strlit("GAVELDROP_FAKE_PORT");
    reveal_strlit("GAVELDROP_PROJECT");
    assert(v.len() == 14);
    lemma_added_avoids(env, own, cleared, 1);
    lemma_added_avoids(env, own, cleared, 2);
    lemma_added_avoids(env, own, cleared, 3);
    lemma_added_avoids(env, own, cleared, 4);
    lemma_added_avoids(env, own, cleared, 5);
    assert(v[1].0 == "HOME"@ && env[1].0@ == v[1].0);
    assert(v[2].0 == "XDG_CONFIG_HOME"@ && env[2].0@ == v[2].0);
    assert(v[3].0 == "XDG_DATA_HOME"@ && env[3].0@ == v[3].0);
    assert(v[4].0 == "XDG_STATE_HOME"@ && env[4].0@ == v[4].0);
    assert(v[5].0 == "XDG_CACHE_HOME"@ && env[5].0@ == v[5].0);
    assert(v[5].0[4] == 'C' && "XDG_STATE_HOME"@[4] == 'S');
    assert(v[6].0[0] == 'G' && v[7].0[0] == 'G' && v[8].0[0] == 'G' && v[9].0[0] == 'G');
    assert(v[10].0[0] == 'G' && v[11].0[0] == 'G' && v[12].0[0] == 'G' && v[13].0[0] == 'G');
    lemma_value_of_append(v, a, "HOME"@);
    lemma_value_of_append(v, a, "XDG_CONFIG_HOME"@);
    lemma_value_of_append(v, a, "XDG_DATA_HOME"@);
    lemma_value_of_append(v, a, "XDG_STATE_HOME"@);
    lemma_value_of_append(v, a, "XDG_CACHE_HOME"@);
    reveal_with_fuel(value_of, 14);
}

/// The rule with its passthrough taken out: it answers with what it declares instead.
pub open spec fn grounded_rule(r: Rule) -> Rule {
    if passes_through(r.response) {
        Rule { matcher: r.matcher, response: Response { exec_target: None, ..r.response } }
    } else {
        r
    }
}

/// The rule can do without the real tool: it does not pass through, or it declares something to
/// answer with instead.
pub open spec fn groundable(r: Rule) -> bool {
    passes_through(r.response) ==> (r.response.stdout is Some || r.response.stderr is Some)
}

/// How a refusal names a rule: by the binary it matches, or as the catch-all when it names none.
pub open spec fn rule_bin(m: Match) -> Seq<char> {
    match m.bin {
        Some(b) => b@,
        None => "(the catch-all)"@,
    }
}

/// `e` refuses the rule at `i`, the first of `rules` that cannot do without the real tool.
pub open spec fn refused_at(rules: Seq<Rule>, i: int, e: IsoError) -> bool {
    &&& 0 <= i < rules.len()
    &&& forall|j: int| 0 <= j < i ==> groundable(#[trigger] rules[j])
    &&& !groundable(rules[i])
    &&& e matches IsoError::NoFallback { bin } && bin@ == rule_bin(rules[i].matcher)
}

/// Replaces every passthrough with the answer its rule declares.
///
/// A rule that passes through and declares neither `stdout` nor `stderr` is refused rather than
/// answered emptily: silence where the subject expected a real tool's output would be a wrong
/// answer dressed as a right one. The rules before it are grounded, the rest left as they were.
pub fn grounded(scenario: &mut Scenario) -> (r: Result<(), IsoError>)
    ensures
        final(scenario).render == old(scenario).render,
        r is Ok <==> forall|i: int| 0 <= i < old(scenario).rules@.len() ==> groundable(#[trigger] old(scenario).rules@[i]),
        r is Ok ==> final(scenario).rules@ == old(scenario).rules@.map_values(|x: Rule| grounded_rule(x)),
        r matches Err(e) ==> exists|i: int|
            refused_at(old(scenario).rules@, i, e) && final(scenario).rules@ == old(scenario).rules@.take(i).map_values(
                |x: Rule| grounded_rule(x),
            ) + old(scenario).rules@.skip(i),
{
    let ghost rules = scenario.rules@;
    let mut rest: Vec<Rule> = Vec::new();
    std::mem::swap(&mut rest, &mut scenario.rules);
    let mut done: Vec<Rule> = Vec::new();
    let ghost mut k: int = 0;
    assert(rules.skip(0) =~= rules);
    while rest.len() > 0
        invariant
            0 <= k <= rules.len(),
            scenario.render == old(scenario).render,
            rules == old(scenario).rules@,
            rest@ == rules.skip(k),
            done@ == rules.take(k).map_values(|x: Rule| grounded_rule(x)),
            forall|j: int| 0 <= j < k ==> groundable(#[trigger] rules[j]),
        decreases rest@.len(),
    {
        let mut rule = rest.remove(0);
        assert(rule == rules[k]);
        assert(rest@ =~= rules.skip(k + 1));
        if rule.response.is_passthrough() {
            if rule.response.stdout.is_none() && rule.response.stderr.is_none() {
                let bin = match &rule.matcher.bin {
                    Some(b) => b.clone(),
                    None => String::from_str("(the catch-all)"),
                };
                let ghost grounded_part = done@;
                done.push(rule);
                done.append(&mut rest);
                scenario.rules = done;
                let e = IsoError::NoFallback { bin };
                assert(refused_at(rules, k, e));
                assert(scenario.rules@ =~= rules.take(k).map_values(|x: Rule| grounded_rule(x)) + rules.skip(k));
                return Err(e);
            }
            rule.response.exec_target = None;
        }
        assert(rule == grounded_rule(rules[k]));
        done.push(rule);
        assert(rules.take(k + 1).map_values(|x: Rule| grounded_rule(x)) =~= rules.take(k).map_values(
            |x: Rule| grounded_rule(x),
        ).push(grounded_rule(rules[k])));
        proof {
            k = k + 1;
        }
    }
    assert(rules.take(k) =~= rules);
    scenario.rules = done;
    Ok(())
}

/// The scenario a case with no `fake:` block runs under: one catch-all exiting 127 with a
/// sentence, so an unexpected call is a loud, attributable failure.
pub open spec fn unexpected_call(s: Scenario) -> bool {
    &&& s.render is None
    &&& s.rules@.len() == 1
    &&& catch_all(s.rules@[0].matcher)
    &&& s.rules@[0].response.exit == Some(127i32)
    &&& s.rules@[0].response.stderr matches Some(t) && t@
        == "gaveldrop: unexpected call, this case declares no fake"@
    &&& s.rules@[0].response.stdout is None
    &&& s.rules@[0].response.exec_target is None
    &&& s.rules@[0].response.latency_ms is None
    &&& s.rules@[0].response.status is None
}

/// The scenario the fake will read for a case: the one it declares, grounded when the project
/// refuses passthrough, or the unexpected-call catch-all when it declares none.
pub fn scenario_for(declared: Option<Scenario>, refuse_passthrough: bool) -> (r: Result<Scenario, IsoError>)
    ensures
        declared is None ==> (r matches Ok(s) && unexpected_call(s)),
        declared matches Some(d) ==> (!refuse_passthrough ==> (r matches Ok(s) && s == d)),
        declared matches Some(d) ==> (refuse_passthrough ==> (r is Ok <==> forall|i: int|
            0 <= i < d.rules@.len() ==> groundable(#[trigger] d.rules@[i]))),
        declared matches Some(d) ==> (refuse_passthrough ==> (r matches Ok(s) ==> s.render == d.render
            && s.rules@ == d.rules@.map_values(|x: Rule| grounded_rule(x)))),
        declared matches Some(d) ==> (refuse_passthrough ==> (r matches Err(e) ==> exists|i: int|
            refused_at(d.rules@, i, e))),
{
    match declared {
        None => {
            let mut response = Response::default();
            response.exit = Some(127);
            response.stderr = Some(String::from_str("gaveldrop: unexpected call, this case declares no fake"));
            let mut rules: Vec<Rule> = Vec::new();
            rules.push(Rule { matcher: Match::default(), response });
            Ok(Scenario { render: None, rules })
        },
        Some(mut scenario) => {
            if refuse_passthrough {
                match grounded(&mut scenario) {
                    Ok(()) => Ok(scenario),
                    Err(e) => Err(e),
                }
            } else {
                Ok(scenario)
            }
        },
    }
}

} // verus!
