//! The case format: one YAML document is one test.
//!
//! These types are the plain data a document becomes. Reading the YAML is the caller's business;
//! what the library decides about a case — which adapter claims it, which variables it may set,
//! which keys under `fake:` are refused — is decided here, on these types.

use vstd::prelude::*;
use crate::fake::rule::{Scenario, has_catch_all, no_catch_all_text};
use crate::strmap::StrMap;
use crate::text::{begins, decimal, ends, joined, views};
use crate::value::Value;

verus! {

/// One test: how to invoke the subject, how its dependencies must respond, and what the result
/// must contain.
#[derive(Debug)]
pub struct Case {
    /// Human-readable name, and the identifier in reports.
    pub name: String,
    /// How much this case matters to gating and to the order failures are shown in.
    pub weight: u32,
    /// A known failure that must not fail the whole suite.
    pub allow_fail: bool,
    /// How many seconds this case may run before its subject is killed.
    pub timeout: Option<u64>,
    /// How to prepare and invoke the subject.
    pub setup: Setup,
    /// How the faked dependencies must respond.
    pub fake: Option<Scenario>,
    /// What the run must produce as a whole.
    pub expect: Expect,
    /// Exchanges with the subject, in order, each with its own expectations.
    pub steps: Vec<Step>,
}

/// One exchange with the subject.
#[derive(Debug)]
pub struct Step {
    /// What this exchange is for, in the reader's words.
    pub name: Option<String>,
    /// How to perform this exchange; opaque to the core.
    pub request: StrMap<Value>,
    /// What this exchange must produce.
    pub expect: Expect,
    /// Values to name from this exchange's response, for later ones to substitute.
    pub capture: StrMap<String>,
}

/// How to prepare and invoke the subject.
///
/// The core reads `run`, `exec`, `env`, `hide` and `stdin`; every other key is kept verbatim in
/// `extra` for the setup hook and the adapters.
#[derive(Debug)]
pub struct Setup {
    /// The command line to invoke, argument by argument.
    pub run: Option<Vec<String>>,
    /// The document's `exec:`: a project executable that prepares the isolated directory.
    pub hook: Option<String>,
    /// Variables the subject must see, on top of the ones isolation defines.
    pub env: StrMap<String>,
    /// Tools that must be findable nowhere.
    pub hide: Vec<String>,
    /// What the subject reads on its standard input.
    pub stdin: Option<String>,
    /// Every other key, kept verbatim.
    pub extra: StrMap<Value>,
}

/// What a run, or one exchange, must produce.
#[derive(Debug)]
pub struct Expect {
    /// The exit code the subject must return.
    pub exit_code: Option<i32>,
    /// Assertions on standard output.
    pub stdout: Option<TextExpectation>,
    /// Assertions on standard error.
    pub stderr: Option<TextExpectation>,
    /// How many times each faked binary must have been called.
    pub calls: Option<StrMap<usize>>,
    /// The document's `exec:`: a project executable that checks what the core cannot.
    pub hook: Option<String>,
    /// Named invariants that must hold.
    pub invariants: Vec<String>,
    /// Structured events that must appear, in order.
    pub events: Vec<StrMap<Value>>,
    /// How many events of each type must have been emitted.
    pub event_counts: Option<StrMap<usize>>,
    /// Assertions on the files the subject wrote, by path.
    pub files: Option<StrMap<TextExpectation>>,
    /// The status the response must carry.
    pub status: Option<u16>,
    /// Assertions on response headers, by name.
    pub headers: Option<StrMap<TextExpectation>>,
    /// Assertions on the response body.
    pub body: Option<TextExpectation>,
    /// Whether this exchange must have written nothing at all.
    pub no_new_files: bool,
    /// Assertions on values inside a JSON body, by dotted path.
    pub json: Option<StrMap<TextExpectation>>,
}

/// Assertions on a stream of text.
#[derive(Debug, Clone)]
pub struct TextExpectation {
    /// Substrings that must all appear.
    pub contains: Vec<String>,
    /// Substrings that must appear nowhere.
    pub absent: Vec<String>,
    /// Groups of values that must each be a word of one single line.
    pub line_includes: Vec<Vec<String>>,
    /// The whole text, exactly, one trailing newline aside.
    pub equals: Option<String>,
    /// Strips terminal escape sequences before comparing.
    pub ignore_ansi: bool,
}

impl Default for TextExpectation {
    fn default() -> (t: Self)
        ensures
            t.contains@.len() == 0,
            t.absent@.len() == 0,
            t.line_includes@.len() == 0,
            t.equals is None,
            !t.ignore_ansi,
    {
        TextExpectation {
            contains: Vec::new(),
            absent: Vec::new(),
            line_includes: Vec::new(),
            equals: None,
            ignore_ansi: false,
        }
    }
}

impl Default for Expect {
    fn default() -> (e: Self)
        ensures
            e.exit_code is None,
            e.stdout is None,
            e.stderr is None,
            e.calls is None,
            e.hook is None,
            e.invariants@.len() == 0,
            e.events@.len() == 0,
            e.event_counts is None,
            e.files is None,
            e.status is None,
            e.headers is None,
            e.body is None,
            !e.no_new_files,
            e.json is None,
    {
        Expect {
            exit_code: None,
            stdout: None,
            stderr: None,
            calls: None,
            hook: None,
            invariants: Vec::new(),
            events: Vec::new(),
            event_counts: None,
            files: None,
            status: None,
            headers: None,
            body: None,
            no_new_files: false,
            json: None,
        }
    }
}

impl Default for Setup {
    fn default() -> (s: Self)
        ensures
            s.run is None,
            s.hook is None,
            s.env.pairs().len() == 0,
            s.hide@.len() == 0,
            s.stdin is None,
            s.extra.pairs().len() == 0,
    {
        Setup {
            run: None,
            hook: None,
            env: StrMap::new(),
            hide: Vec::new(),
            stdin: None,
            extra: StrMap::new(),
        }
    }
}

impl Default for Step {
    fn default() -> (s: Self)
        ensures
            s.name is None,
            s.request.pairs().len() == 0,
            s.capture.pairs().len() == 0,
    {
        Step { name: None, request: StrMap::new(), expect: Expect::default(), capture: StrMap::new() }
    }
}

impl Default for Case {
    fn default() -> (c: Self)
        ensures
            c.name@.len() == 0,
            c.weight == 0,
            !c.allow_fail,
            c.timeout is None,
            c.setup.run is None,
            c.setup.hook is None,
            c.setup.stdin is None,
            c.setup.env.pairs().len() == 0,
            c.setup.hide@.len() == 0,
            c.setup.extra.pairs().len() == 0,
            c.fake is None,
            c.steps@.len() == 0,
    {
        Case {
            name: String::new(),
            weight: 0,
            allow_fail: false,
            timeout: None,
            setup: Setup::default(),
            fake: None,
            expect: Expect::default(),
            steps: Vec::new(),
        }
    }
}

/// What can go wrong while loading a case.
#[derive(Debug)]
pub enum CaseError {
    /// The case file could not be read.
    Io {
        /// The path that could not be read.
        path: String,
        /// The underlying failure.
        source: std::io::Error,
    },
    /// The case is not valid YAML, or does not match the expected shape.
    Parse {
        /// The offending path.
        path: String,
        /// The underlying failure.
        source: serde_yaml_ng::Error,
    },
    /// A key under `fake:` that the fake engine does not read.
    UnknownFakeKey {
        /// The offending case.
        path: String,
        /// Where in the document, such as `fake.rules[0].match`.
        at: String,
        /// The key nothing reads.
        key: String,
        /// What was allowed at that position.
        known: Vec<String>,
    },
    /// The case parsed, and its fake could never prove anything.
    Scenario {
        /// The offending path.
        path: String,
    },
}

/// What the refusal of an unknown key under `fake:` adds when it sits in a `match:`.
pub open spec fn empty_match_warning(at: Seq<char>) -> Seq<char> {
    if ends(at, "match"@) {
        ". An unknown criterion is not ignored, it leaves the match empty — and an empty match is the catch-all, so this rule would answer every call and the rules after it would never be reached"@
    } else {
        Seq::empty()
    }
}

/// The sentence for an unknown key under `fake:`.
pub open spec fn unknown_key_text(path: Seq<char>, at: Seq<char>, key: Seq<char>, known: Seq<Seq<char>>) -> Seq<char> {
    "case "@ + path + ": `"@ + at + "` holds `"@ + key + "`, which the fake engine does not read"@
        + empty_match_warning(at) + ". Known here: "@ + joined(known, ", "@) + ". If `"@ + key
        + "` is your project's own vocabulary, your fake owns the whole scenario — put it under `setup:`, which the core keeps opaque, and read it from your adapter"@
}

impl CaseError {
    /// What the failure says.
    pub fn message(&self) -> (text: String)
        ensures
            self matches CaseError::Io { path, .. } ==> begins(text@, "reading the case "@ + path@ + ": "@),
            self matches CaseError::Parse { path, .. } ==> begins(text@, "case "@ + path@ + " is invalid: "@),
            self matches CaseError::UnknownFakeKey { path, at, key, known } ==> text@ == unknown_key_text(
                path@,
                at@,
                key@,
                views(known@),
            ),
            self matches CaseError::Scenario { path } ==> text@ == "case "@ + path@ + ": "@ + no_catch_all_text(),
    {
        match self {
            CaseError::Io { path, source } => {
                let mut out = String::from_str("reading the case ");
                out.append(path.as_str());
                out.append(": ");
                let ghost head = out@;
                out.append(crate::ext::io_error_text(source).as_str());
                assert(out@.subrange(0, head.len() as int) =~= head);
                out
            },
            CaseError::Parse { path, source } => {
                let mut out = String::from_str("case ");
                out.append(path.as_str());
                out.append(" is invalid: ");
                let ghost head = out@;
                out.append(crate::config::yaml_error_text(source).as_str());
                assert(out@.subrange(0, head.len() as int) =~= head);
                out
            },
            CaseError::UnknownFakeKey { path, at, key, known } => {
                let mut out = String::from_str("case ");
                out.append(path.as_str());
                out.append(": `");
                out.append(at.as_str());
                out.append("` holds `");
                out.append(key.as_str());
                out.append("`, which the fake engine does not read");
                if crate::text::ends_with(at.as_str(), "match") {
                    out.append(
                        ". An unknown criterion is not ignored, it leaves the match empty — and an empty match is the catch-all, so this rule would answer every call and the rules after it would never be reached",
                    );
                }
                out.append(". Known here: ");
                out.append(crate::text::join(known, ", ").as_str());
                out.append(". If `");
                out.append(key.as_str());
                out.append(
                    "` is your project's own vocabulary, your fake owns the whole scenario — put it under `setup:`, which the core keeps opaque, and read it from your adapter",
                );
                out
            },
            CaseError::Scenario { path } => {
                let mut out = String::from_str("case ");
                out.append(path.as_str());
                out.append(": ");
                out.append(crate::fake::rule::NoCatchAll.message().as_str());
                out
            },
        }
    }
}

/// The keys a document writes under `fake:`, as the loader reads them: those of the block itself,
/// and for each rule, its own and those of its `match:`, each in document order.
///
/// Only what the refusal below reads. A block, rule or `match:` that is not a mapping holds no
/// key, and a `rules:` that is not a list holds no rule.
#[derive(Debug)]
pub struct FakeKeys {
    /// The keys of the `fake:` block.
    pub block: Vec<String>,
    /// The rules, in order.
    pub rules: Vec<RuleKeys>,
}

/// The keys of one rule, and of its `match:`.
#[derive(Debug)]
pub struct RuleKeys {
    /// The rule's own keys.
    pub keys: Vec<String>,
    /// The keys of its `match:`.
    pub matcher: Vec<String>,
}

/// The keys the fake engine reads on a scenario.
pub open spec fn scenario_known() -> Seq<Seq<char>> {
    seq!["render"@, "rules"@]
}

/// The keys the fake engine reads on a rule: its criterion, then its response.
pub open spec fn rule_known() -> Seq<Seq<char>> {
    seq!["match"@, "stdout"@, "stderr"@, "exit"@, "exec"@, "latency_ms"@, "status"@, "headers"@]
}

/// The keys the fake engine reads on a criterion.
pub open spec fn match_known() -> Seq<Seq<char>> {
    seq!["bin"@, "args_contain"@, "stdin_contains"@, "call"@]
}

fn known_list(which: u8) -> (out: Vec<String>)
    ensures
        which == 0 ==> views(out@) == scenario_known(),
        which == 1 ==> views(out@) == rule_known(),
        which > 1 ==> views(out@) == match_known(),
{
    let mut out: Vec<String> = Vec::new();
    if which == 0 {
        out.push(String::from_str("render"));
        out.push(String::from_str("rules"));
        assert(views(out@) =~= scenario_known());
    } else if which == 1 {
        out.push(String::from_str("match"));
        out.push(String::from_str("stdout"));
        out.push(String::from_str("stderr"));
        out.push(String::from_str("exit"));
        out.push(String::from_str("exec"));
        out.push(String::from_str("latency_ms"));
        out.push(String::from_str("status"));
        out.push(String::from_str("headers"));
        assert(views(out@) =~= rule_known());
    } else {
        out.push(String::from_str("bin"));
        out.push(String::from_str("args_contain"));
        out.push(String::from_str("stdin_contains"));
        out.push(String::from_str("call"));
        assert(views(out@) =~= match_known());
    }
    out
}

fn find_unknown(keys: &Vec<String>, known: &Vec<String>) -> (r: Option<usize>)
    ensures
        r matches Some(i) ==> i < keys@.len() && !views(known@).contains(keys@[i as int]@)
            && forall|j: int| 0 <= j < i ==> views(known@).contains(#[trigger] keys@[j]@),
        r is None ==> forall|j: int| 0 <= j < keys@.len() ==> views(known@).contains(#[trigger] keys@[j]@),
{
    let mut i: usize = 0;
    while i < keys.len()
        invariant
            i <= keys@.len(),
            forall|j: int| 0 <= j < i ==> views(known@).contains(#[trigger] keys@[j]@),
        decreases keys@.len() - i,
    {
        let mut k: usize = 0;
        let mut found = false;
        while k < known.len()
            invariant
                k <= known@.len(),
                i < keys@.len(),
                found ==> views(known@).contains(keys@[i as int]@),
                !found ==> forall|m: int| 0 <= m < k ==> known@[m]@ != keys@[i as int]@,
            decreases known@.len() - k,
        {
            if !found && crate::order::same(known[k].as_str(), keys[i].as_str()) {
                assert(views(known@)[k as int] == keys@[i as int]@);
                found = true;
            }
            k = k + 1;
        }
        if !found {
            proof {
                if views(known@).contains(keys@[i as int]@) {
                    let m = choose|m: int| 0 <= m < views(known@).len() && views(known@)[m] == keys@[i as int]@;
                    assert(known@[m]@ == keys@[i as int]@);
                }
            }
            return Some(i);
        }
        i = i + 1;
    }
    None
}

/// Where an unknown key was found, what it was, and what was allowed there.
pub open spec fn unknown_at(at: Seq<char>, key: Seq<char>, known: Seq<Seq<char>>, found: (String, String, Vec<String>)) -> bool {
    found.0@ == at && found.1@ == key && views(found.2@) == known
}

/// Every key of every rule before `n`, and of its `match:`, is one the fake engine reads.
pub open spec fn rules_read(rules: Seq<RuleKeys>, n: int) -> bool {
    forall|i: int| 0 <= i < n ==> {
        &&& forall|j: int| 0 <= j < (#[trigger] rules[i]).keys@.len() ==> rule_known().contains(#[trigger] rules[i].keys@[j]@)
        &&& forall|j: int| 0 <= j < rules[i].matcher@.len() ==> match_known().contains(#[trigger] rules[i].matcher@[j]@)
    }
}

/// The path of the rule at `i` in the document.
pub open spec fn rule_at(i: int) -> Seq<char> {
    "fake.rules["@ + decimal(i as nat) + "]"@
}

/// Refuses a key under `fake:` that the fake engine does not read.
///
/// Left undone this would not be a dropped field but a changed meaning: a `match:` whose only key is
/// unknown becomes the empty match, which is the catch-all — the rule would answer every call and
/// the rules after it would never be reached. The block is checked first, then each rule in order,
/// its own keys before those of its `match:`; the first unknown key is the answer.
pub fn refuse_unknown_fake_keys(fake: &FakeKeys) -> (r: Result<(), (String, String, Vec<String>)>)
    ensures
        r is Ok <==> (forall|j: int| 0 <= j < fake.block@.len() ==> scenario_known().contains(#[trigger] fake.block@[j]@))
            && rules_read(fake.rules@, fake.rules@.len() as int),
        r matches Err(found) ==> {
            ||| exists|j: int| 0 <= j < fake.block@.len() && !scenario_known().contains(fake.block@[j]@)
                && (forall|m: int| 0 <= m < j ==> scenario_known().contains(#[trigger] fake.block@[m]@))
                && unknown_at("fake"@, fake.block@[j]@, scenario_known(), found)
            ||| (forall|m: int| 0 <= m < fake.block@.len() ==> scenario_known().contains(#[trigger] fake.block@[m]@))
                && exists|i: int| 0 <= i < fake.rules@.len() && rules_read(fake.rules@, i) && {
                ||| exists|j: int| 0 <= j < fake.rules@[i].keys@.len() && !rule_known().contains(fake.rules@[i].keys@[j]@)
                    && (forall|m: int| 0 <= m < j ==> rule_known().contains(#[trigger] fake.rules@[i].keys@[m]@))
                    && unknown_at(rule_at(i), fake.rules@[i].keys@[j]@, rule_known(), found)
                ||| (forall|m: int| 0 <= m < fake.rules@[i].keys@.len() ==> rule_known().contains(#[trigger] fake.rules@[i].keys@[m]@))
                    && exists|j: int| 0 <= j < fake.rules@[i].matcher@.len() && !match_known().contains(fake.rules@[i].matcher@[j]@)
                    && (forall|m: int| 0 <= m < j ==> match_known().contains(#[trigger] fake.rules@[i].matcher@[m]@))
                    && unknown_at(rule_at(i) + ".match"@, fake.rules@[i].matcher@[j]@, match_known(), found)
            }
        },
{
    let scenario = known_list(0);
    match find_unknown(&fake.block, &scenario) {
        Some(j) => {
            return Err((String::from_str("fake"), fake.block[j].clone(), scenario));
        },
        None => {},
    }
    let rule = known_list(1);
    let criterion = known_list(2);
    let mut i: usize = 0;
    while i < fake.rules.len()
        invariant
            i <= fake.rules@.len(),
            views(rule@) == rule_known(),
            views(criterion@) == match_known(),
            forall|m: int| 0 <= m < fake.block@.len() ==> scenario_known().contains(#[trigger] fake.block@[m]@),
            rules_read(fake.rules@, i as int),
        decreases fake.rules@.len() - i,
    {
        let mut at = String::from_str("fake.rules[");
        at.append(crate::text::decimal_string(i as u64).as_str());
        at.append("]");
        assert(at@ == rule_at(i as int));
        match find_unknown(&fake.rules[i].keys, &rule) {
            Some(j) => {
                return Err((at, fake.rules[i].keys[j].clone(), rule));
            },
            None => {},
        }
        match find_unknown(&fake.rules[i].matcher, &criterion) {
            Some(j) => {
                let mut where_at = at;
                where_at.append(".match");
                return Err((where_at, fake.rules[i].matcher[j].clone(), criterion));
            },
            None => {},
        }
        i = i + 1;
    }
    Ok(())
}

/// A parsed case, accepted or refused as the loader does: a `fake:` block may hold only keys the
/// fake engine reads, and must have a catch-all.
///
/// `fake_keys` is what the document writes under `fake:`, absent when it writes nothing there.
/// `origin` names the case in any error.
pub fn accepted(case: Case, fake_keys: Option<&FakeKeys>, origin: &str) -> (r: Result<Case, CaseError>)
    ensures
        case.fake is None ==> (r matches Ok(c) && c == case),
        case.fake matches Some(s) ==> (r is Ok <==> (match fake_keys {
            Some(k) => refuse_unknown_fake_keys_holds(*k),
            None => true,
        }) && has_catch_all(s.rules@)),
        r matches Ok(c) ==> c == case,
        r matches Err(e) ==> match e {
            CaseError::UnknownFakeKey { path, .. } => path@ == origin@ && (fake_keys matches Some(k) && !refuse_unknown_fake_keys_holds(*k)),
            CaseError::Scenario { path } => path@ == origin@ && (case.fake matches Some(s) && !has_catch_all(s.rules@)),
            _ => false,
        },
{
    if case.fake.is_some() {
        match fake_keys {
            Some(keys) => match refuse_unknown_fake_keys(keys) {
                Ok(()) => {},
                Err((at, key, known)) => {
                    return Err(CaseError::UnknownFakeKey { path: String::from_str(origin), at, key, known });
                },
            },
            None => {},
        }
    }
    let valid = match &case.fake {
        Some(scenario) => scenario.validate().is_ok(),
        None => true,
    };
    if !valid {
        return Err(CaseError::Scenario { path: String::from_str(origin) });
    }
    Ok(case)
}

/// Every key the document writes under `fake:` is one the fake engine reads.
pub open spec fn refuse_unknown_fake_keys_holds(k: FakeKeys) -> bool {
    (forall|j: int| 0 <= j < k.block@.len() ==> scenario_known().contains(#[trigger] k.block@[j]@))
        && rules_read(k.rules@, k.rules@.len() as int)
}

} // verus!
