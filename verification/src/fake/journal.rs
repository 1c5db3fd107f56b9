//! The call journal: who called what, in what order, how many times.

use vstd::prelude::*;
use crate::fake::invocation::Invocation;
use crate::report::jsonl::{bool_text, json_bool, json_list, json_quoted, quoted, string_list};
use crate::text::{decimal, signed_decimal, split_on, trimmed, views};

verus! {

/// One journal line: an intercepted call and what became of it.
///
/// This is what replaces structured events for a technology that emits none. "`kubectl` was
/// called with `--context aks-blg-dev`, and exactly twice" is as strong an assertion as an event
/// count.
#[derive(Debug, Clone)]
pub struct Call {
    /// Name of the faked binary.
    pub bin: String,
    /// The arguments received, without `argv[0]`.
    pub args: Vec<String>,
    /// The rank of this call for its key.
    pub call: u32,
    /// The key the counter was kept under.
    pub key: String,
    /// True when the **catch-all** answered — so a call the case had not foreseen. This is the
    /// most valuable piece of information in the journal.
    pub catch_all: bool,
    /// True when the call was passed through to the real binary.
    pub passthrough: bool,
    /// The exit code the fake returned.
    pub exit: i32,
}

impl Call {
    /// Builds a journal line from the call and what was done about it.
    pub fn from_invocation(
        inv: &Invocation,
        call: u32,
        key: &str,
        catch_all: bool,
        passthrough: bool,
        exit: i32,
    ) -> (c: Self)
        ensures
            c.bin@ == inv.bin@,
            c.args@.len() == inv.args@.len(),
            forall|i: int| 0 <= i < c.args@.len() ==> #[trigger] c.args@[i]@ == inv.args@[i]@,
            c.call == call,
            c.key@ == key@,
            c.catch_all == catch_all,
            c.passthrough == passthrough,
            c.exit == exit,
    {
        let mut args: Vec<String> = Vec::new();
        let mut i: usize = 0;
        while i < inv.args.len()
            invariant
                i <= inv.args@.len(),
                args@.len() == i,
                forall|j: int| 0 <= j < i ==> #[trigger] args@[j]@ == inv.args@[j]@,
            decreases inv.args@.len() - i,
        {
            args.push(String::from_str(inv.args[i].as_str()));
            i = i + 1;
        }
        Call {
            bin: String::from_str(inv.bin.as_str()),
            args,
            call,
            key: String::from_str(key),
            catch_all,
            passthrough,
            exit,
        }
    }
}

/// The journal: a file of JSON lines, opened in append mode.
///
/// **Append-only, never a pipe or a socket.** Each intercepted call is a separate process, and the
/// subject under test may spawn several in parallel. A file opened `O_APPEND` accepts concurrent
/// writes with no coordination at all, as long as they stay under a pipe's size.
pub struct Journal {
    path: std::path::PathBuf,
}

/// What can go wrong with the journal.
#[derive(Debug)]
pub enum JournalError {
    /// The core did not set the journal path variable before invoking the fake.
    MissingEnv(&'static str),
    /// The journal or its parent directory could not be written.
    Io {
        /// The path that could not be written.
        path: std::path::PathBuf,
        /// The underlying failure.
        source: std::io::Error,
    },
    /// A journal line could not be serialised.
    Encode(serde_json::Error),
}

impl JournalError {
    /// What the failure says.
    pub fn message(&self) -> (text: String)
        ensures
            self matches JournalError::MissingEnv(name) ==> text@ == "environment variable "@ + name@
                + " is missing: the core must set it before invoking the fake"@,
            self is Io ==> crate::text::begins(text@, "writing the journal at "@),
            self is Encode ==> crate::text::begins(text@, "serialising a journal line: "@),
    {
        match self {
            JournalError::MissingEnv(name) => {
                let mut out = String::from_str("environment variable ");
                out.append(name);
                out.append(" is missing: the core must set it before invoking the fake");
                out
            },
            JournalError::Io { path, source } => {
                let mut out = String::from_str("writing the journal at ");
                let ghost head = out@;
                out.append(crate::ext::path_text(crate::ext::as_path(path)).as_str());
                out.append(": ");
                out.append(crate::ext::io_error_text(source).as_str());
                assert(out@.subrange(0, head.len() as int) =~= head);
                out
            },
            JournalError::Encode(source) => {
                let mut out = String::from_str("serialising a journal line: ");
                let ghost head = out@;
                out.append(crate::ext::json_error_text(source).as_str());
                assert(out@.subrange(0, head.len() as int) =~= head);
                out
            },
        }
    }
}

impl Journal {
    /// A journal at this path. The file is created on the first append.
    pub fn new(path: std::path::PathBuf) -> (j: Self)
        ensures
            j.location() == path,
    {
        Journal { path }
    }

    /// Where the journal lives.
    pub closed spec fn location(&self) -> std::path::PathBuf {
        self.path
    }

    /// The journal's path: the one it was made with. It dereferences to a `Path`.
    pub fn path(&self) -> (p: &std::path::PathBuf)
        ensures
            *p == self.location(),
    {
        &self.path
    }
}

/// What a journal line says, as plain values: the binary, its arguments, the rank and key of the
/// call, and what became of it.
pub open spec fn call_view(c: Call) -> (Seq<char>, Seq<Seq<char>>, u32, Seq<char>, bool, bool, i32) {
    (c.bin@, c.args@.map_values(|a: String| a@), c.call, c.key@, c.catch_all, c.passthrough, c.exit)
}

/// What a list of journal lines says, line by line.
pub open spec fn calls_view(calls: Seq<Call>) -> Seq<(Seq<char>, Seq<Seq<char>>, u32, Seq<char>, bool, bool, i32)> {
    calls.map_values(|c: Call| call_view(c))
}

impl Call {
    /// A copy of this journal line.
    pub fn copied(&self) -> (c: Call)
        ensures
            call_view(c) == call_view(*self),
    {
        let mut args: Vec<String> = Vec::new();
        let mut i: usize = 0;
        while i < self.args.len()
            invariant
                i <= self.args@.len(),
                args@ == self.args@.take(i as int),
            decreases self.args@.len() - i,
        {
            args.push(self.args[i].clone());
            assert(args@ =~= self.args@.take(i + 1));
            i = i + 1;
        }
        assert(args@ =~= self.args@);
        assert(args@.map_values(|a: String| a@) =~= self.args@.map_values(|a: String| a@));
        Call {
            bin: self.bin.clone(),
            args,
            call: self.call,
            key: self.key.clone(),
            catch_all: self.catch_all,
            passthrough: self.passthrough,
            exit: self.exit,
        }
    }
}

/// A copy of a list of journal lines.
pub fn calls_copied(calls: &Vec<Call>) -> (out: Vec<Call>)
    ensures
        calls_view(out@) == calls_view(calls@),
{
    let mut out: Vec<Call> = Vec::new();
    let mut i: usize = 0;
    while i < calls.len()
        invariant
            i <= calls@.len(),
            calls_view(out@) == calls_view(calls@.take(i as int)),
        decreases calls@.len() - i,
    {
        let ghost before = out@;
        let c = calls[i].copied();
        out.push(c);
        assert(calls_view(out@) =~= calls_view(before).push(call_view(c)));
        assert(calls@.take(i + 1) =~= calls@.take(i as int).push(calls@[i as int]));
        assert(calls_view(calls@.take(i + 1)) =~= calls_view(calls@.take(i as int)).push(call_view(calls@[i as int])));
        i = i + 1;
    }
    assert(calls@.take(calls@.len() as int) =~= calls@);
    out
}

/// One journal line as JSON, its fields in declaration order.
pub open spec fn call_json(c: Call) -> Seq<char> {
    "{\"bin\":"@ + json_quoted(c.bin@) + ",\"args\":"@ + json_list(c.args@.map_values(|a: String| json_quoted(a@)))
        + ",\"call\":"@ + decimal(c.call as nat) + ",\"key\":"@ + json_quoted(c.key@) + ",\"catch_all\":"@
        + json_bool(c.catch_all) + ",\"passthrough\":"@ + json_bool(c.passthrough) + ",\"exit\":"@
        + signed_decimal(c.exit as int) + "}"@
}

impl Call {
    /// The line the journal appends for this call: its JSON, then a newline.
    ///
    /// One line per call, so concurrent appends from parallel calls never interleave inside a line.
    pub fn line(&self) -> (out: String)
        ensures
            out@ == call_json(*self) + "\n"@,
    {
        let mut out = String::from_str("{\"bin\":");
        out.append(quoted(self.bin.as_str()).as_str());
        out.append(",\"args\":");
        out.append(string_list(&self.args).as_str());
        out.append(",\"call\":");
        out.append(crate::text::decimal_string(self.call as u64).as_str());
        out.append(",\"key\":");
        out.append(quoted(self.key.as_str()).as_str());
        out.append(",\"catch_all\":");
        out.append(bool_text(self.catch_all));
        out.append(",\"passthrough\":");
        out.append(bool_text(self.passthrough));
        out.append(",\"exit\":");
        out.append(crate::text::signed_decimal_string(self.exit as i64).as_str());
        out.append("}");
        out.append("\n");
        out
    }
}

/// The lines of a journal worth reading: every piece between newlines that holds something other
/// than white space, in order.
pub open spec fn journal_lines(contents: Seq<char>) -> Seq<Seq<char>> {
    split_on(contents, '\n').filter(|l: Seq<char>| trimmed(l).len() > 0)
}

/// The lines of a journal's contents worth reading back, in order; blank ones are passed over.
pub fn lines_of(contents: &str) -> (out: Vec<String>)
    ensures
        views(out@) == journal_lines(contents@),
{
    let cs = crate::text::chars_of(contents);
    let parts = crate::text::split_chars(&cs, '\n');
    let ghost pieces = parts@.map_values(|p: Vec<char>| p@);
    let mut out: Vec<String> = Vec::new();
    let mut i: usize = 0;
    while i < parts.len()
        invariant
            i <= parts@.len(),
            pieces == parts@.map_values(|p: Vec<char>| p@),
            pieces == split_on(contents@, '\n'),
            views(out@) == pieces.take(i as int).filter(|l: Seq<char>| trimmed(l).len() > 0),
        decreases parts@.len() - i,
    {
        let line = crate::text::string_of(&parts[i]);
        let t = crate::text::trim(line.as_str());
        let ghost before = out@;
        assert(pieces[i as int] == line@);
        assert(pieces.take(i + 1).drop_last() =~= pieces.take(i as int));
        reveal(Seq::filter);
        if !t.as_str().is_empty() {
            out.push(line);
            assert(views(out@) =~= views(before).push(pieces[i as int]));
        }
        i = i + 1;
    }
    assert(pieces.take(parts@.len() as int) =~= pieces);
    out
}

} // verus!
