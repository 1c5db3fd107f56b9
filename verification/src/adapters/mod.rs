//! Adapters: what each technology needs decided before a subject is invoked, and how a failure
//! to invoke one is reported.
//!
//! An adapter invokes and observes. It **never evaluates** — no adapter knows what a case expects.

pub mod process;
pub mod shell;
pub mod web;

use vstd::prelude::*;
use crate::fake::journal::{Call, JournalError};
use crate::case::Case;
use crate::iso::paths::{expand_known, known_from};
use crate::strmap::StrMap;
use crate::value::Value;
use crate::text::{joined, views};

verus! {

/// Runs a case's `run:` command line as a process.
#[derive(Debug, Clone, Copy)]
pub struct Process;

/// Sources a case's shell files and calls one of its functions.
#[derive(Debug, Clone, Copy)]
pub struct Shell;

/// Starts a case's service and performs its exchanges over HTTP.
#[derive(Debug, Clone, Copy)]
pub struct Web;

/// What can go wrong invoking a subject.
#[derive(Debug)]
pub enum AdapterError {
    /// The case does not give this adapter enough to work with.
    Unsupported {
        /// The case's name.
        case: String,
        /// What is missing.
        reason: String,
    },
    /// The subject could not be started.
    Spawn {
        /// The program that would not start.
        program: String,
        /// The underlying failure.
        source: std::io::Error,
    },
    /// The call journal could not be read back.
    Journal(JournalError),
    /// No adapter recognised the case, so nothing would be invoked.
    Unclaimed {
        /// The case's name.
        case: String,
        /// The keys `setup` did hold.
        keys: Vec<String>,
    },
}

/// The sentence for a case no adapter recognises: what it could add, and the keys it did hold.
pub open spec fn unclaimed_text(case: Seq<char>, keys: Seq<Seq<char>>) -> Seq<char> {
    "case `"@ + case
        + "` would invoke nothing: no adapter recognises it. Add `run: [...]` with a command line, `shell:` with `call:` for a shell function, or `serve:` for a service. `setup.exec` only prepares the directory, so it is not enough on its own. setup holds "@
        + if keys.len() == 0 { "no other key"@ } else { joined(keys, ", "@) }
}

impl AdapterError {
    /// What the failure says.
    pub fn message(&self) -> (text: String)
        ensures
            self matches AdapterError::Unsupported { case, reason } ==> text@ == "case `"@ + case@
                + "` cannot be invoked by this adapter: "@ + reason@,
            self matches AdapterError::Unclaimed { case, keys } ==> text@ == unclaimed_text(
                case@,
                views(keys@),
            ),
            self matches AdapterError::Spawn { program, .. } ==> crate::text::begins(text@, "starting `"@ + program@ + "`: "@),
            self is Journal ==> crate::text::begins(text@, "reading the call journal: "@),
    {
        match self {
            AdapterError::Unsupported { case, reason } => {
                let mut out = String::from_str("case `");
                out.append(case.as_str());
                out.append("` cannot be invoked by this adapter: ");
                out.append(reason.as_str());
                out
            },
            AdapterError::Spawn { program, source } => {
                let mut out = String::from_str("starting `");
                out.append(program.as_str());
                out.append("`: ");
                let ghost head = out@;
                out.append(crate::ext::io_error_text(source).as_str());
                assert(out@.subrange(0, head.len() as int) =~= head);
                out
            },
            AdapterError::Journal(error) => {
                let mut out = String::from_str("reading the call journal: ");
                let ghost head = out@;
                out.append(error.message().as_str());
                assert(out@.subrange(0, head.len() as int) =~= head);
                out
            },
            AdapterError::Unclaimed { case, keys } => {
                let mut out = String::from_str("case `");
                out.append(case.as_str());
                out.append(
                    "` would invoke nothing: no adapter recognises it. Add `run: [...]` with a command line, `shell:` with `call:` for a shell function, or `serve:` for a service. `setup.exec` only prepares the directory, so it is not enough on its own. setup holds ",
                );
                if keys.len() == 0 {
                    out.append("no other key");
                } else {
                    out.append(crate::text::join(keys, ", ").as_str());
                }
                out
            },
        }
    }
}

/// Reduces a cumulative call journal to what each exchange added to it.
///
/// **The journal only ever grows, and every adapter reads all of it.** An exchange handed the whole
/// journal would see its own calls plus every call before it.
pub struct Ledger {
    counted: usize,
}

impl Ledger {
    /// How many calls earlier exchanges have accounted for.
    pub closed spec fn seen(&self) -> nat {
        self.counted as nat
    }

    /// A ledger positioned before the first exchange.
    pub fn new() -> (l: Ledger)
        ensures
            l.seen() == 0,
    {
        Ledger { counted: 0 }
    }

    /// Cuts `calls` — the journal as it stands — down to the ones this exchange added.
    ///
    /// A journal shorter than the last one is not something this can be handed; it is cut to
    /// nothing rather than refused.
    pub fn only_the_new(&mut self, calls: &mut Vec<Call>)
        ensures
            final(calls)@ == handed(old(self).seen(), old(calls)@),
            final(self).seen() == counted_after(old(self).seen(), old(calls)@),
    {
        let cut: usize = if self.counted < calls.len() { self.counted } else { calls.len() };
        let rest = calls.split_off(cut);
        *calls = rest;
        self.counted = self.counted + calls.len();
    }
}

impl Process {
    /// How this adapter calls itself in the trace `--verbose` prints.
    pub fn name(&self) -> (n: &'static str)
        ensures
            n@ == "process"@,
    {
        "process"
    }

    /// Whether this adapter is the one for `case`: it has a command line to run.
    pub fn claims(&self, case: &Case) -> (b: bool)
        ensures
            b == (case.setup.run matches Some(argv) && argv@.len() > 0),
    {
        match &case.setup.run {
            Some(argv) => argv.len() > 0,
            None => false,
        }
    }
}

impl Shell {
    /// How this adapter calls itself in the trace `--verbose` prints.
    pub fn name(&self) -> (n: &'static str)
        ensures
            n@ == "shell"@,
    {
        "shell"
    }

    /// Whether this adapter is the one for `case`: its setup names a `shell:`.
    pub fn claims(&self, case: &Case) -> (b: bool)
        ensures
            b == case.setup.extra@.contains_key("shell"@),
    {
        case.setup.extra.get("shell").is_some()
    }
}

impl Web {
    /// How this adapter calls itself in the trace `--verbose` prints.
    pub fn name(&self) -> (n: &'static str)
        ensures
            n@ == "web"@,
    {
        "web"
    }

    /// Whether this adapter is the one for `case`: its setup names a service to `serve:`.
    pub fn claims(&self, case: &Case) -> (b: bool)
        ensures
            b == case.setup.extra@.contains_key("serve"@),
    {
        case.setup.extra.get("serve").is_some()
    }
}

/// The adapter for `case`, among those asked in order: the first whose claim holds.
///
/// `claims[i]` is whether the `i`-th adapter claims the case. Each is asked rather than tried:
/// trying would run the subject. When none claims it the case would invoke nothing, and the error
/// lists the keys its setup did hold, so a mistyped one can be spotted.
pub fn select(case: &Case, claims: &[bool]) -> (r: Result<usize, AdapterError>)
    ensures
        r is Ok <==> exists|i: int| 0 <= i < claims@.len() && claims@[i],
        r matches Ok(i) ==> i < claims@.len() && claims@[i as int] && forall|j: int| 0 <= j < i ==> !claims@[j],
        r matches Err(e) ==> e matches AdapterError::Unclaimed { case: name, keys } && name@ == case.name@
            && views(keys@) == case.setup.extra.keys(),
{
    let mut i: usize = 0;
    while i < claims.len()
        invariant
            i <= claims@.len(),
            forall|j: int| 0 <= j < i ==> !claims@[j],
        decreases claims@.len() - i,
    {
        if claims[i] {
            return Ok(i);
        }
        i = i + 1;
    }
    let pairs = case.setup.extra.pairs_vec();
    let mut keys: Vec<String> = Vec::new();
    let mut k: usize = 0;
    while k < pairs.len()
        invariant
            k <= pairs@.len(),
            pairs@ == case.setup.extra.pairs(),
            views(keys@) == case.setup.extra.keys().take(k as int),
        decreases pairs@.len() - k,
    {
        let ghost before = keys@;
        keys.push(pairs[k].0.clone());
        assert(views(keys@) =~= views(before).push(pairs@[k as int].0@));
        assert(case.setup.extra.keys().take(k + 1) =~= case.setup.extra.keys().take(k as int).push(
            pairs@[k as int].0@,
        ));
        k = k + 1;
    }
    assert(case.setup.extra.keys().take(pairs@.len() as int) =~= case.setup.extra.keys());
    Err(AdapterError::Unclaimed { case: case.name.clone(), keys })
}

/// The first pause between two looks at a waited-for subject, in microseconds.
pub const FIRST_NAP_MICROS: u64 = 200;

/// The longest pause between two looks, in microseconds.
pub const LONGEST_NAP_MICROS: u64 = 50000;

/// How long a killed subject's readers get to finish before its output is read, in microseconds.
pub const LAST_WORDS_MICROS: u64 = 50000;

/// What to do next while waiting for a subject under a limit.
#[derive(Debug, Clone, Copy, PartialEq, Eq, Structural)]
pub enum Wait {
    /// It exited by itself: collect what it wrote.
    Collect,
    /// Its time is up: kill it and everything it started, then collect what it wrote.
    Kill,
    /// Look again after a pause, with the pause after it.
    Sleep {
        /// How long to pause, in microseconds.
        micros: u64,
        /// The pause to use on the next turn.
        next_nap: u64,
    },
}

/// What one turn of waiting decides: collect a subject that exited, kill one whose time is up, or
/// pause — for the nap, or what is left until the deadline if that is shorter — and double the nap
/// up to its ceiling.
pub open spec fn wait_spec(exited: bool, now: u64, deadline: u64, nap: u64) -> Wait {
    if exited {
        Wait::Collect
    } else if now >= deadline {
        Wait::Kill
    } else {
        Wait::Sleep {
            micros: if nap < deadline - now { nap } else { (deadline - now) as u64 },
            next_nap: if nap <= LONGEST_NAP_MICROS / 2 { (nap * 2) as u64 } else { LONGEST_NAP_MICROS },
        }
    }
}

/// One turn of waiting for a subject that must finish by `deadline`.
///
/// Polled with a backoff: the pause doubles each turn up to a ceiling, so a fast case pays almost
/// nothing and a long one costs a few hundred wakeups — and it never sleeps past the deadline.
/// Times are in microseconds on one clock.
pub fn next_wait(exited: bool, now: u64, deadline: u64, nap: u64) -> (w: Wait)
    ensures
        w == wait_spec(exited, now, deadline, nap),
{
    if exited {
        return Wait::Collect;
    }
    if now >= deadline {
        return Wait::Kill;
    }
    let left = deadline - now;
    let micros = if nap < left { nap } else { left };
    let next_nap = if nap <= LONGEST_NAP_MICROS / 2 { nap * 2 } else { LONGEST_NAP_MICROS };
    Wait::Sleep { micros, next_nap }
}

/// The text of every string among `items`, in order; anything else is passed over.
pub open spec fn string_items(items: Seq<Value>) -> Seq<Seq<char>>
    decreases items.len(),
{
    if items.len() == 0 {
        Seq::empty()
    } else {
        match items.last() {
            Value::String(s) => string_items(items.drop_last()).push(s@),
            _ => string_items(items.drop_last()),
        }
    }
}

/// The strings a setup or request value lists: those of an array, none for anything else.
pub open spec fn listed_strings(value: Option<Value>) -> Seq<Seq<char>> {
    match value {
        Some(Value::Array(items)) => string_items(items@),
        _ => Seq::empty(),
    }
}

/// The strings `value` lists, when it is an array; nothing otherwise.
pub fn strings_of(value: Option<&Value>) -> (out: Vec<String>)
    ensures
        views(out@) == listed_strings(match value {
            Some(v) => Some(*v),
            None => None,
        }),
{
    let mut out: Vec<String> = Vec::new();
    match value {
        Some(Value::Array(items)) => {
            let mut i: usize = 0;
            while i < items.len()
                invariant
                    i <= items@.len(),
                    views(out@) == string_items(items@.take(i as int)),
                decreases items@.len() - i,
            {
                let ghost before = out@;
                assert(items@.take(i + 1).drop_last() =~= items@.take(i as int));
                assert(items@.take(i + 1).last() == items@[i as int]);
                match &items[i] {
                    Value::String(s) => {
                        out.push(s.clone());
                        assert(views(out@) =~= views(before).push(s@));
                    },
                    _ => {},
                }
                i = i + 1;
            }
            assert(items@.take(items@.len() as int) =~= items@);
        },
        _ => {},
    }
    out
}

/// Every argument of a command line with what isolation defines substituted, and anything else
/// left for the shell.
pub fn resolved_command(argv: &[String], defined: &StrMap<String>) -> (out: Vec<String>)
    ensures
        views(out@) == views(argv@).map_values(|a: Seq<char>| known_from(a, 0, defined@)),
{
    let mut out: Vec<String> = Vec::new();
    let mut i: usize = 0;
    while i < argv.len()
        invariant
            i <= argv@.len(),
            views(out@) == views(argv@).take(i as int).map_values(|a: Seq<char>| known_from(a, 0, defined@)),
        decreases argv@.len() - i,
    {
        let ghost before = out@;
        let e = expand_known(argv[i].as_str(), defined);
        out.push(e);
        assert(views(out@) =~= views(before).push(e@));
        assert(views(argv@).take(i + 1) =~= views(argv@).take(i as int).push(argv@[i as int]@));
        assert(views(argv@).take(i + 1).map_values(|a: Seq<char>| known_from(a, 0, defined@)) =~= views(
            argv@,
        ).take(i as int).map_values(|a: Seq<char>| known_from(a, 0, defined@)).push(
            known_from(argv@[i as int]@, 0, defined@),
        ));
        i = i + 1;
    }
    assert(views(argv@).take(argv@.len() as int) =~= views(argv@));
    out
}

/// What a ledger that has accounted for `seen` calls hands an exchange reading `journal`: the calls
/// past the first `seen`.
pub open spec fn handed(seen: nat, journal: Seq<Call>) -> Seq<Call> {
    journal.skip(if seen < journal.len() { seen as int } else { journal.len() as int })
}

/// How many calls the ledger has accounted for once an exchange has read `journal`.
pub open spec fn counted_after(seen: nat, journal: Seq<Call>) -> nat {
    if seen < journal.len() {
        journal.len()
    } else {
        seen
    }
}

/// `later` is `earlier` with calls appended: what a journal becomes as it grows.
pub open spec fn grows(earlier: Seq<Call>, later: Seq<Call>) -> bool {
    earlier.len() <= later.len() && later.take(earlier.len() as int) == earlier
}

/// What a fresh ledger has accounted for after exchanges that read `journals`, in order.
pub open spec fn ledger_after(journals: Seq<Seq<Call>>) -> nat
    decreases journals.len(),
{
    if journals.len() == 0 {
        0
    } else {
        counted_after(ledger_after(journals.drop_last()), journals.last())
    }
}

/// What a fresh ledger hands out to exchanges that read `journals`, in order, end to end.
pub open spec fn handed_out(journals: Seq<Seq<Call>>) -> Seq<Call>
    decreases journals.len(),
{
    if journals.len() == 0 {
        Seq::empty()
    } else {
        handed_out(journals.drop_last()) + handed(ledger_after(journals.drop_last()), journals.last())
    }
}

/// Exchanges in order, each reading the journal as it then stood — and a journal only grows: what
/// the ledger hands each exchange, put end to end, is the whole journal. No call is lost, and none
/// is counted for two exchanges.
pub proof fn law_each_call_is_counted_once(journals: Seq<Seq<Call>>)
    requires
        forall|i: int| 0 < i < journals.len() ==> grows(journals[i - 1], #[trigger] journals[i]),
    ensures
        journals.len() > 0 ==> handed_out(journals) == journals.last(),
        journals.len() > 0 ==> ledger_after(journals) == journals.last().len(),
    decreases journals.len(),
{
    if journals.len() > 0 {
        let prev = journals.drop_last();
        let j = journals.last();
        if prev.len() == 0 {
            assert(j.skip(0) =~= j);
            assert(handed(0, j) =~= j);
            assert(handed_out(prev) =~= Seq::<Call>::empty());
        } else {
            assert forall|i: int| 0 < i < prev.len() implies grows(prev[i - 1], #[trigger] prev[i]) by {
                assert(prev[i] == journals[i]);
                assert(prev[i - 1] == journals[i - 1]);
            }
            law_each_call_is_counted_once(prev);
            let p = prev.last();
            assert(grows(journals[journals.len() - 2], journals[journals.len() - 1]));
            assert(j.take(p.len() as int) == p);
            assert(p.len() <= j.len());
            assert(p + j.skip(p.len() as int) =~= j);
            if p.len() == j.len() {
                assert(j.skip(j.len() as int) =~= Seq::<Call>::empty());
                assert(p =~= j);
            }
        }
    }
}

/// A pause between two looks never outlasts the deadline, and never grows past its ceiling once
/// it has started under it.
pub proof fn law_a_pause_never_passes_the_deadline(now: u64, deadline: u64, nap: u64)
    ensures
        wait_spec(false, now, deadline, nap) matches Wait::Sleep { micros, next_nap } ==> now + micros <= deadline
            && (nap <= LONGEST_NAP_MICROS ==> next_nap <= LONGEST_NAP_MICROS),
{
}

} // verus!
