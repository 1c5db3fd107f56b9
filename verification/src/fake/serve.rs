//! The rule engine behind an HTTP door: which scenarios it can honour, and how a request becomes
//! a call the rules already match on.
//!
//! **The rules are the same rules.** A project writes `fake.rules` once, and whether the dependency
//! arrives as an executable on `PATH` or a request on a port changes the door, never the matching,
//! the counter or the journal.

use vstd::prelude::*;
use crate::fake::invocation::Invocation;
use crate::fake::rule::{Response, Rule, Scenario};

verus! {

/// What can go wrong standing a faked service up.
#[derive(Debug)]
pub enum ServeError {
    /// The port could not be listened on.
    Listen {
        /// The port asked for.
        port: u16,
        /// What the listener said.
        reason: String,
    },
    /// The scenario asks for a response mode this door cannot honour.
    UnsupportedMode {
        /// The mode the scenario asked for.
        mode: String,
        /// Why this door cannot do it.
        why: String,
    },
}

impl ServeError {
    /// What the failure says.
    pub fn message(&self) -> (text: String)
        ensures
            self matches ServeError::Listen { port, reason } ==> text@ == "listening on port "@
                + crate::text::decimal(*port as nat) + " for the faked service: "@ + reason@,
            self matches ServeError::UnsupportedMode { mode, why } ==> text@ == "the HTTP door cannot honour `"@
                + mode@ + "`: "@ + why@
                + ". Use `stdout` with `status` and `headers`, which is what a faked service answers with"@,
    {
        match self {
            ServeError::Listen { port, reason } => {
                let mut out = String::from_str("listening on port ");
                let p = crate::text::decimal_string(*port as u64);
                out.append(p.as_str());
                out.append(" for the faked service: ");
                out.append(reason.as_str());
                out
            },
            ServeError::UnsupportedMode { mode, why } => {
                let mut out = String::from_str("the HTTP door cannot honour `");
                out.append(mode.as_str());
                out.append("`: ");
                out.append(why.as_str());
                out.append(". Use `stdout` with `status` and `headers`, which is what a faked service answers with");
                out
            },
        }
    }
}

/// The index of the first rule that delegates with `exec`, if any.
pub open spec fn first_exec(rules: Seq<Rule>) -> Option<int>
    decreases rules.len(),
{
    if rules.len() == 0 {
        None
    } else if rules[0].response.exec_target is Some {
        Some(0)
    } else {
        match first_exec(rules.drop_first()) {
            Some(i) => Some(i + 1),
            None => None,
        }
    }
}

proof fn lemma_first_exec(rules: Seq<Rule>)
    ensures
        first_exec(rules) matches Some(i) ==> 0 <= i < rules.len() && rules[i].response.exec_target is Some
            && forall|j: int| 0 <= j < i ==> (#[trigger] rules[j]).response.exec_target is None,
        first_exec(rules) is None ==> forall|j: int| 0 <= j < rules.len() ==> (#[trigger] rules[j]).response.exec_target is None,
    decreases rules.len(),
{
    if rules.len() > 0 {
        lemma_first_exec(rules.drop_first());
        assert forall|j: int| 1 <= j < rules.len() implies rules[j] == rules.drop_first()[j - 1] by {}
    }
}

/// Refuses a scenario whose modes this door has no meaning for: a render hook, because shaping
/// bytes through a hook means capturing its output; and any `exec`, because there is no next
/// service along a port.
pub fn refuse_unsupported(scenario: &Scenario) -> (r: Result<(), ServeError>)
    ensures
        scenario.render is Some ==> (r matches Err(ServeError::UnsupportedMode { mode, .. }) && mode@ == "render"@),
        scenario.render is None && first_exec(scenario.rules@) is Some ==> (r matches Err(
            ServeError::UnsupportedMode { mode, .. },
        ) && mode@ == "exec: "@ + scenario.rules@[first_exec(scenario.rules@)->0].response.exec_target->0@),
        r is Ok <==> scenario.render is None && first_exec(scenario.rules@) is None,
{
    proof {
        lemma_first_exec(scenario.rules@);
    }
    if scenario.render.is_some() {
        return Err(ServeError::UnsupportedMode {
            mode: String::from_str("render"),
            why: String::from_str(
                "shaping bytes through a hook means capturing its output, which the binary door does by inheriting its own streams",
            ),
        });
    }
    let mut i: usize = 0;
    while i < scenario.rules.len()
        invariant
            i <= scenario.rules@.len(),
            scenario.render is None,
            forall|j: int| 0 <= j < i ==> (#[trigger] scenario.rules@[j]).response.exec_target is None,
        decreases scenario.rules@.len() - i,
    {
        if let Some(target) = &scenario.rules[i].response.exec_target {
            proof {
                lemma_first_exec(scenario.rules@);
                let f = first_exec(scenario.rules@);
                if f is None {
                } else {
                    let k = f->0;
                    if k < i {
                    } else if k > i {
                    }
                }
            }
            let mode = crate::text::concat("exec: ", target.as_str());
            return Err(ServeError::UnsupportedMode {
                mode,
                why: String::from_str(
                    "`exec: real` finds the next binary along `PATH`, and there is no next service along a port",
                ),
            });
        }
        i = i + 1;
    }
    Ok(())
}

/// Where a request's target splits into path and query: at the first `?`, if any.
pub open spec fn query_at(target: Seq<char>) -> Option<int> {
    crate::text::first_from(target, seq!['?'], 0)
}

/// A request in the shape the rule engine already matches on.
///
/// The path becomes `bin`, so the counter key is the path and `call: 2` means the second request
/// to it. The method and the query become arguments, which is what lets `args_contain: POST` read
/// the same way it reads a binary's flags. The body becomes `stdin`, so `stdin_contains` works
/// unchanged.
pub fn request_invocation(method: &str, target: &str, body: String) -> (inv: Invocation)
    ensures
        query_at(target@) matches Some(q) ==> (inv.bin@ == target@.take(q) && inv.args@.len() == 2
            && inv.args@[0]@ == method@ && inv.args@[1]@ == target@.skip(q + 1)),
        query_at(target@) is None ==> inv.bin@ == target@ && inv.args@.len() == 1 && inv.args@[0]@ == method@,
        inv.stdin@ == body@,
{
    let cs = crate::text::chars_of(target);
    let mut question: Vec<char> = Vec::new();
    question.push('?');
    assert(question@ =~= seq!['?']);
    let mut args: Vec<String> = Vec::new();
    args.push(String::from_str(method));
    match crate::text::find_from(&cs, &question, 0) {
        Some(q) => {
            let mut path: Vec<char> = Vec::new();
            let mut query: Vec<char> = Vec::new();
            let mut i: usize = 0;
            while i < cs.len()
                invariant
                    i <= cs.len(),
                    q < cs.len(),
                    i <= q ==> path@ == cs@.take(i as int) && query@.len() == 0,
                    i > q ==> path@ == cs@.take(q as int) && query@ == cs@.subrange(q + 1, i as int),
                decreases cs.len() - i,
            {
                if i < q {
                    path.push(cs[i]);
                    assert(cs@.take(i + 1) =~= cs@.take(i as int).push(cs@[i as int]));
                } else if i > q {
                    query.push(cs[i]);
                    assert(cs@.subrange(q + 1, i + 1) =~= cs@.subrange(q + 1, i as int).push(cs@[i as int]));
                } else {
                    assert(query@ =~= cs@.subrange(q + 1, q + 1));
                }
                i = i + 1;
            }
            assert(query@ =~= cs@.skip(q + 1));
            args.push(crate::text::string_of(&query));
            Invocation { bin: crate::text::string_of(&path), args, stdin: body }
        },
        None => Invocation { bin: String::from_str(target), args, stdin: body },
    }
}

/// What the HTTP door answers with a response: its status, `200` when it names none, and its
/// `stdout` as the body, empty when it names none.
pub fn reply(response: &Response) -> (r: (u16, String))
    ensures
        r.0 == (match response.status {
            Some(s) => s,
            None => 200u16,
        }),
        r.1@ == (match response.stdout {
            Some(b) => b@,
            None => Seq::<char>::empty(),
        }),
{
    let status: u16 = match response.status {
        Some(s) => s,
        None => 200,
    };
    let body = match &response.stdout {
        Some(b) => b.clone(),
        None => String::new(),
    };
    (status, body)
}

} // verus!
