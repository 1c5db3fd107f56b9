//! The scenario: rules, each pairing a criterion with a response.

use std::collections::BTreeMap;
use vstd::prelude::*;
use crate::fake::invocation::Invocation;
use crate::text::{has, joined, views};

verus! {

/// Criterion selecting a rule. Every field is optional; a `Match` whose fields are all absent is
/// the **catch-all**.
#[derive(Debug, Clone)]
pub struct Match {
    /// Name of the faked binary, as the caller spelled it.
    pub bin: Option<String>,
    /// Substring searched for in the arguments joined by spaces.
    pub args_contain: Option<String>,
    /// Substring searched for in standard input.
    pub stdin_contains: Option<String>,
    /// Rank of the call, 1-indexed, for the counter key in force.
    pub call: Option<u32>,
}

impl Default for Match {
    fn default() -> (m: Self)
        ensures
            m.bin is None,
            m.args_contain is None,
            m.stdin_contains is None,
            m.call is None,
    {
        Match { bin: None, args_contain: None, stdin_contains: None, call: None }
    }
}

/// The criterion names nothing, so it matches every call.
pub open spec fn catch_all(m: Match) -> bool {
    &&& m.bin is None
    &&& m.args_contain is None
    &&& m.stdin_contains is None
    &&& m.call is None
}

/// The call satisfies every criterion `m` names; none of them is an `or`.
pub open spec fn admits(m: Match, inv: Invocation, call: u32) -> bool {
    &&& (m.bin matches Some(want) ==> want@ == inv.bin@)
    &&& (m.args_contain matches Some(needle) ==> has(joined(views(inv.args@), " "@), needle@))
    &&& (m.stdin_contains matches Some(needle) ==> has(inv.stdin@, needle@))
    &&& (m.call matches Some(want) ==> want == call)
}

impl Match {
    /// True when this criterion is not one: it matches everything. That is the catch-all.
    pub fn is_catch_all(&self) -> (b: bool)
        ensures
            b == catch_all(*self),
    {
        self.bin.is_none() && self.args_contain.is_none() && self.stdin_contains.is_none()
            && self.call.is_none()
    }

    /// True when this criterion needs standard input to have been read.
    pub fn needs_stdin(&self) -> (b: bool)
        ensures
            b == self.stdin_contains is Some,
    {
        self.stdin_contains.is_some()
    }

    /// True when the call satisfies **every** criterion present. Criteria are cumulative; none of
    /// them is an `or`.
    pub fn matches(&self, inv: &Invocation, call: u32) -> (b: bool)
        ensures
            b == admits(*self, *inv, call),
    {
        if let Some(want) = &self.bin {
            if !crate::order::same(want.as_str(), inv.bin.as_str()) {
                return false;
            }
        }
        if let Some(needle) = &self.args_contain {
            let joined = inv.args_joined();
            if !crate::text::contains(joined.as_str(), needle.as_str()) {
                return false;
            }
        }
        if let Some(needle) = &self.stdin_contains {
            if !crate::text::contains(inv.stdin.as_str(), needle.as_str()) {
                return false;
            }
        }
        if let Some(want) = self.call {
            if want != call {
                return false;
            }
        }
        true
    }
}

/// What the fake does when a rule applies.
///
/// The modes are exclusive. `exec` wins over `stdout`/`stderr`: delegating means letting the
/// other program do the writing.
#[derive(Debug, Clone)]
pub struct Response {
    /// What the fake writes on its standard output.
    pub stdout: Option<String>,
    /// What the fake writes on its standard error.
    pub stderr: Option<String>,
    /// Exit code of the fake. Absent means `0`.
    pub exit: Option<i32>,
    /// `real` passes through to the real binary, found further along `PATH`. Any other value is
    /// the path of a project executable to delegate to, with the same arguments.
    pub exec_target: Option<String>,
    /// Wait before responding, in milliseconds.
    pub latency_ms: Option<u64>,
    /// HTTP status, for a dependency faked behind the HTTP door. Absent means `200`.
    pub status: Option<u16>,
    /// Response headers, for the HTTP door. Ignored by the binary door.
    pub headers: BTreeMap<String, String>,
}

impl Default for Response {
    fn default() -> (r: Self)
        ensures
            r.stdout is None,
            r.stderr is None,
            r.exit is None,
            r.exec_target is None,
            r.latency_ms is None,
            r.status is None,
    {
        Response {
            stdout: None,
            stderr: None,
            exit: None,
            exec_target: None,
            latency_ms: None,
            status: None,
            headers: BTreeMap::new(),
        }
    }
}

/// The response hands the call to the real binary.
pub open spec fn passes_through(r: Response) -> bool {
    r.exec_target matches Some(target) && target@ == "real"@
}

impl Response {
    /// True when this response passes through to the real binary.
    pub fn is_passthrough(&self) -> (b: bool)
        ensures
            b == passes_through(*self),
    {
        match &self.exec_target {
            Some(target) => crate::order::same(target.as_str(), "real"),
            None => false,
        }
    }
}

/// One rule: a criterion and the response that goes with it.
#[derive(Debug, Clone)]
pub struct Rule {
    /// The criterion deciding whether this rule applies.
    pub matcher: Match,
    /// What to do when it does.
    pub response: Response,
}

/// The whole scenario, as it reaches the fake binary.
#[derive(Debug, Clone)]
pub struct Scenario {
    /// Executable that dresses the selected response. It receives the rule and the call as JSON
    /// on its standard input, and returns the bytes to emit.
    pub render: Option<String>,
    /// The rules, in the order they are tried.
    pub rules: Vec<Rule>,
}

impl Default for Scenario {
    fn default() -> (s: Self)
        ensures
            s.render is None,
            s.rules@.len() == 0,
    {
        Scenario { render: None, rules: Vec::new() }
    }
}

/// Some rule of `rules` is a catch-all.
pub open spec fn has_catch_all(rules: Seq<Rule>) -> bool {
    exists|i: int| 0 <= i < rules.len() && catch_all(#[trigger] rules[i].matcher)
}

/// The index of the first rule that admits the call, if any.
pub open spec fn first_admitting(rules: Seq<Rule>, inv: Invocation, call: u32) -> Option<int>
    decreases rules.len(),
{
    if rules.len() == 0 {
        None
    } else if admits(rules[0].matcher, inv, call) {
        Some(0)
    } else {
        match first_admitting(rules.drop_first(), inv, call) {
            Some(i) => Some(i + 1),
            None => None,
        }
    }
}

/// What [`first_admitting`] finds: the least index whose rule admits the call.
pub proof fn lemma_first_admitting(rules: Seq<Rule>, inv: Invocation, call: u32)
    ensures
        first_admitting(rules, inv, call) matches Some(i) ==> {
            &&& 0 <= i < rules.len()
            &&& admits(rules[i].matcher, inv, call)
            &&& forall|j: int| 0 <= j < i ==> !admits(#[trigger] rules[j].matcher, inv, call)
        },
        first_admitting(rules, inv, call) is None ==> forall|j: int|
            0 <= j < rules.len() ==> !admits(#[trigger] rules[j].matcher, inv, call),
    decreases rules.len(),
{
    if rules.len() > 0 {
        lemma_first_admitting(rules.drop_first(), inv, call);
        if !admits(rules[0].matcher, inv, call) {
            assert forall|j: int| 1 <= j < rules.len() implies rules[j] == rules.drop_first()[j - 1] by {}
        }
    }
}

/// A scenario with no catch-all.
#[derive(Debug)]
pub struct NoCatchAll;

/// The sentence for a scenario with no catch-all.
pub open spec fn no_catch_all_text() -> Seq<char> {
    "scenario has no catch-all: add a `match: {}` rule last. Without it an unexpected call would pass for an expected one, and the case would stop proving anything"@
}

impl NoCatchAll {
    /// What the refusal says.
    pub fn message(&self) -> (text: String)
        ensures
            text@ == no_catch_all_text(),
    {
        String::from_str(
            "scenario has no catch-all: add a `match: {}` rule last. Without it an unexpected call would pass for an expected one, and the case would stop proving anything",
        )
    }
}

/// Ok when at least one of the flags says "I am a catch-all".
///
/// Takes booleans rather than rules so that a project whose criterion is not [`Match`] can reuse
/// the check.
pub fn require_catch_all(flags: &[bool]) -> (r: Result<(), NoCatchAll>)
    ensures
        r is Ok <==> exists|i: int| 0 <= i < flags@.len() && flags@[i],
{
    let mut i: usize = 0;
    while i < flags.len()
        invariant
            i <= flags@.len(),
            forall|j: int| 0 <= j < i ==> !flags@[j],
        decreases flags@.len() - i,
    {
        if flags[i] {
            return Ok(());
        }
        i = i + 1;
    }
    Err(NoCatchAll)
}

impl Scenario {
    /// Refuses a scenario with no catch-all.
    ///
    /// Meant to be called at load time, not at call time: a scenario with no catch-all is an
    /// error in the scenario, and you want to know before the first call rather than at the
    /// twentieth.
    pub fn validate(&self) -> (r: Result<(), NoCatchAll>)
        ensures
            r is Ok <==> has_catch_all(self.rules@),
    {
        let mut flags: Vec<bool> = Vec::new();
        let mut i: usize = 0;
        while i < self.rules.len()
            invariant
                i <= self.rules@.len(),
                flags@.len() == i,
                forall|j: int| 0 <= j < i ==> flags@[j] == catch_all(self.rules@[j].matcher),
            decreases self.rules@.len() - i,
        {
            flags.push(self.rules[i].matcher.is_catch_all());
            i = i + 1;
        }
        let r = require_catch_all(flags.as_slice());
        proof {
            if has_catch_all(self.rules@) {
                let w = choose|w: int| 0 <= w < self.rules@.len() && catch_all(#[trigger] self.rules@[w].matcher);
                assert(flags@[w]);
            }
        }
        r
    }

    /// True when at least one rule needs standard input.
    pub fn needs_stdin(&self) -> (b: bool)
        ensures
            b == exists|i: int| 0 <= i < self.rules@.len() && (#[trigger] self.rules@[i]).matcher.stdin_contains is Some,
    {
        let mut i: usize = 0;
        while i < self.rules.len()
            invariant
                i <= self.rules@.len(),
                forall|j: int| 0 <= j < i ==> (#[trigger] self.rules@[j]).matcher.stdin_contains is None,
            decreases self.rules@.len() - i,
        {
            if self.rules[i].matcher.needs_stdin() {
                return true;
            }
            i = i + 1;
        }
        false
    }

    /// The first rule that applies, or `None` — which can only happen when
    /// [`Scenario::validate`] was not called.
    pub fn select(&self, inv: &Invocation, call: u32) -> (r: Option<&Rule>)
        ensures
            r is Some <==> first_admitting(self.rules@, *inv, call) is Some,
            r matches Some(rule) ==> *rule == self.rules@[first_admitting(self.rules@, *inv, call)->0],
    {
        proof {
            lemma_first_admitting(self.rules@, *inv, call);
        }
        let mut i: usize = 0;
        while i < self.rules.len()
            invariant
                i <= self.rules@.len(),
                forall|j: int| 0 <= j < i ==> !admits(#[trigger] self.rules@[j].matcher, *inv, call),
            decreases self.rules@.len() - i,
        {
            if self.rules[i].matcher.matches(inv, call) {
                proof {
                    lemma_first_admitting(self.rules@, *inv, call);
                    let f = first_admitting(self.rules@, *inv, call);
                    if f is None {
                        assert(!admits(self.rules@[i as int].matcher, *inv, call));
                    } else {
                        let k = f->0;
                        if k < i {
                        } else if k > i {
                        }
                    }
                }
                return Some(&self.rules[i]);
            }
            i = i + 1;
        }
        None
    }
}

/// A selected rule admits the call, no rule before it does, and a scenario holding a catch-all
/// always selects one: an unexpected call reaches the catch-all rather than going unmatched.
pub proof fn lemma_catch_all_answers_every_call(rules: Seq<Rule>, inv: Invocation, call: u32)
    requires
        has_catch_all(rules),
    ensures
        first_admitting(rules, inv, call) is Some,
{
    lemma_first_admitting(rules, inv, call);
    let w = choose|w: int| 0 <= w < rules.len() && catch_all(#[trigger] rules[w].matcher);
    assert(admits(rules[w].matcher, inv, call));
}

/// What can go wrong while loading a scenario.
#[derive(Debug)]
pub enum ScenarioError {
    /// The core did not set the scenario path variable before invoking the fake.
    MissingEnv(&'static str),
    /// The scenario file could not be read.
    Io {
        /// The path that could not be read.
        path: String,
        /// The underlying failure.
        source: std::io::Error,
    },
    /// The scenario file is not valid YAML, or does not match the expected shape.
    Parse {
        /// The offending path.
        path: String,
        /// The underlying failure.
        source: serde_yaml_ng::Error,
    },
    /// The scenario parsed and has no catch-all.
    Invalid {
        /// The offending path.
        path: String,
    },
}

impl ScenarioError {
    /// What the failure says.
    pub fn message(&self) -> (text: String)
        ensures
            self matches ScenarioError::MissingEnv(name) ==> text@ == "environment variable "@ + name@
                + " is missing: the core must set it before invoking the fake"@,
            self matches ScenarioError::Io { path, .. } ==> crate::text::begins(text@, "reading the scenario "@ + path@ + ": "@),
            self matches ScenarioError::Parse { path, .. } ==> crate::text::begins(text@, "scenario "@ + path@ + " is unreadable: "@),
            self matches ScenarioError::Invalid { path } ==> text@ == "scenario "@ + path@ + ": "@ + no_catch_all_text(),
    {
        match self {
            ScenarioError::MissingEnv(name) => {
                let mut out = String::from_str("environment variable ");
                out.append(name);
                out.append(" is missing: the core must set it before invoking the fake");
                out
            },
            ScenarioError::Io { path, source } => {
                let mut out = String::from_str("reading the scenario ");
                out.append(path.as_str());
                out.append(": ");
                let ghost head = out@;
                out.append(crate::ext::io_error_text(source).as_str());
                assert(out@.subrange(0, head.len() as int) =~= head);
                out
            },
            ScenarioError::Parse { path, source } => {
                let mut out = String::from_str("scenario ");
                out.append(path.as_str());
                out.append(" is unreadable: ");
                let ghost head = out@;
                out.append(crate::config::yaml_error_text(source).as_str());
                assert(out@.subrange(0, head.len() as int) =~= head);
                out
            },
            ScenarioError::Invalid { path } => {
                let mut out = String::from_str("scenario ");
                out.append(path.as_str());
                out.append(": ");
                out.append(NoCatchAll.message().as_str());
                out
            },
        }
    }
}

} // verus!
