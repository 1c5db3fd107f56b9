//! Applying a response: the decisions the four modes rest on.
//!
//! | Mode | Trigger | What it does |
//! |---|---|---|
//! | static | neither `exec` nor `render` | writes `stdout`/`stderr`, exits with `exit` |
//! | render | `render` at scenario level | hands the shaping to an executable |
//! | passthrough | `exec: real` | finds the real binary further along `PATH` and calls it |
//! | delegate | `exec: <path>` | calls that executable with the same arguments |

use vstd::prelude::*;
use crate::fake::rule::Response;
use crate::iso::within;
use crate::text::{split_on, views};
use crate::fake::invocation::Invocation;
use crate::fake::rule::Rule;
use crate::text::{ends, signed_decimal};

verus! {

/// What a render executable receives, as JSON, on its standard input.
///
/// **This is a public contract.** The key names are what a project script reads; changing them
/// breaks every existing script.
#[derive(Debug)]
pub struct RenderPayload<'a> {
    /// The selected rule, with its response flattened in.
    pub rule: &'a Rule,
    /// The call as the fake saw it.
    pub invocation: &'a Invocation,
    /// The rank of this call.
    pub call: u32,
}

/// What can go wrong while applying a response.
#[derive(Debug)]
pub enum RespondError {
    /// `exec: real` was asked for but no real binary exists further along `PATH`.
    RealNotFound(String),
    /// A child process could not be started.
    Spawn {
        /// The executable that could not be run.
        path: String,
        /// The underlying failure.
        source: std::io::Error,
    },
    /// The render hook itself failed, as opposed to the faked tool failing.
    RenderHookFailed(i32),
    /// Writing to the fake's own outputs failed.
    Io(std::io::Error),
    /// The render payload could not be serialised.
    Encode(serde_json::Error),
}

/// The sentence a failed render hook is reported with.
pub open spec fn hook_failure_message(status: i32) -> Seq<char> {
    "the render hook exited with "@ + signed_decimal(status as int)
        + ": that is a harness failure, not a simulated one"@
}

impl RespondError {
    /// What the failure says.
    pub fn message(&self) -> (text: String)
        ensures
            self matches RespondError::RenderHookFailed(status) ==> text@ == hook_failure_message(*status),
            self matches RespondError::RealNotFound(bin) ==> text@ == "the real `"@ + bin@
                + "` is nowhere on PATH — `exec: real` requires it to be installed"@,
            self matches RespondError::Spawn { path, .. } ==> crate::text::begins(text@, "running `"@ + path@ + "`: "@),
            self is Io ==> crate::text::begins(text@, "writing to the outputs: "@),
            self is Encode ==> crate::text::begins(text@, "serialising the render payload: "@),
    {
        match self {
            RespondError::RealNotFound(bin) => {
                let mut out = String::from_str("the real `");
                out.append(bin.as_str());
                out.append("` is nowhere on PATH — `exec: real` requires it to be installed");
                out
            },
            RespondError::Spawn { path, source } => {
                let mut out = String::from_str("running `");
                out.append(path.as_str());
                out.append("`: ");
                let ghost head = out@;
                let why = crate::ext::io_error_text(source);
                out.append(why.as_str());
                assert(out@.subrange(0, head.len() as int) =~= head);
                out
            },
            RespondError::RenderHookFailed(status) => {
                let mut out = String::from_str("the render hook exited with ");
                let code = crate::text::signed_decimal_string(*status as i64);
                out.append(code.as_str());
                out.append(": that is a harness failure, not a simulated one");
                out
            },
            RespondError::Io(source) => {
                let mut out = String::from_str("writing to the outputs: ");
                let ghost head = out@;
                let why = crate::ext::io_error_text(source);
                out.append(why.as_str());
                assert(out@.subrange(0, head.len() as int) =~= head);
                out
            },
            RespondError::Encode(source) => {
                let mut out = String::from_str("serialising the render payload: ");
                let ghost head = out@;
                let why = crate::ext::json_error_text(source);
                out.append(why.as_str());
                assert(out@.subrange(0, head.len() as int) =~= head);
                out
            },
        }
    }
}

/// Which exit code the fake takes once a render hook has run.
///
/// The hook shapes bytes; it does **not** decide whether the faked tool succeeded. So the rule's
/// `exit` stands, and a non-zero exit from the hook means the hook itself broke — a harness
/// failure, which must never be passed off as the faked tool's exit code.
pub fn exit_after_render(rule_exit: Option<i32>, hook_status: i32) -> (r: Result<i32, RespondError>)
    ensures
        hook_status != 0 ==> (r matches Err(RespondError::RenderHookFailed(s)) && s == hook_status),
        hook_status == 0 ==> r == Ok::<i32, RespondError>(
            match rule_exit {
                Some(code) => code,
                None => 0,
            },
        ),
{
    if hook_status != 0 {
        return Err(RespondError::RenderHookFailed(hook_status));
    }
    match rule_exit {
        Some(code) => Ok(code),
        None => Ok(0),
    }
}

/// What a line of static output is once written: the text, with the trailing newline a real
/// command-line tool would emit added when it is missing.
pub open spec fn as_written(text: Seq<char>) -> Seq<char> {
    if ends(text, seq!['\n']) { text } else { text.push('\n') }
}

/// `text` as a command-line tool would write it, ending in exactly the newline it carried or one
/// added.
pub fn as_line(text: &str) -> (out: String)
    ensures
        out@ == as_written(text@),
{
    let mut out = String::from_str(text);
    let cs = crate::text::chars_of(text);
    if cs.len() > 0 && cs[cs.len() - 1] == '\n' {
        assert(cs@.subrange(cs.len() - 1, cs.len() as int) =~= seq!['\n']);
        out
    } else {
        proof {
            if ends(text@, seq!['\n']) {
                assert(text@.subrange(text@.len() - 1, text@.len() as int)[0] == text@[text@.len() - 1]);
            }
        }
        crate::text::push_char(&mut out, '\n');
        out
    }
}

/// The exit code the static mode takes: the rule's, or `0` when it names none.
pub fn static_exit(rule_exit: Option<i32>) -> (code: i32)
    ensures
        code == match rule_exit {
            Some(c) => c,
            None => 0,
        },
{
    match rule_exit {
        Some(c) => c,
        None => 0,
    }
}

/// How the fake answers with a response.
#[derive(Debug, PartialEq, Eq)]
pub enum Mode {
    /// Hand the call to the real binary, found further along `PATH`.
    Passthrough,
    /// Hand the call to a project executable, with the same arguments.
    Delegate(String),
    /// Let the scenario's render hook shape the bytes.
    Render(String),
    /// Write the rule's `stdout` and `stderr` and exit with its code.
    Static,
}

/// The mode a response answers in. `exec` wins over everything: delegating means letting the other
/// program do the writing. Without it, a scenario's render hook shapes the bytes.
pub fn mode(response: &Response, render: Option<&str>) -> (m: Mode)
    ensures
        response.exec_target matches Some(t) ==> (if t@ == "real"@ { m == Mode::Passthrough } else {
            m matches Mode::Delegate(p) && p@ == t@
        }),
        response.exec_target is None ==> (render matches Some(script) ==> (m matches Mode::Render(s) && s@ == script@)),
        response.exec_target is None && render is None ==> m == Mode::Static,
{
    match &response.exec_target {
        Some(target) => {
            if crate::order::same(target.as_str(), "real") {
                Mode::Passthrough
            } else {
                Mode::Delegate(target.clone())
            }
        },
        None => match render {
            Some(script) => Mode::Render(String::from_str(script)),
            None => Mode::Static,
        },
    }
}

/// The status the fake's process exits with: the code itself when it fits in a byte, `1`
/// otherwise — a code that cannot be represented must still read as a failure.
pub fn exit_code_from(code: i32) -> (status: u8)
    ensures
        0 <= code <= 255 ==> status == code,
        !(0 <= code <= 255) ==> status == 1,
{
    if 0 <= code && code <= 255 {
        code as u8
    } else {
        1
    }
}

/// Where to look for the real `bin` along `path`: the tool's name under each directory the search
/// path names, in order. An empty entry names none.
pub open spec fn candidates_spec(bin: Seq<char>, path: Seq<char>) -> Seq<Seq<char>> {
    split_on(path, ':').filter(|d: Seq<char>| d.len() > 0).map_values(|d: Seq<char>| within(d, bin))
}

/// The places the real `bin` may be, in the order `PATH` gives them. Which of them holds an
/// executable that is not the fake itself is for the caller to find out.
pub fn candidates(bin: &str, path: &str) -> (out: Vec<String>)
    ensures
        views(out@) == candidates_spec(bin@, path@),
{
    let dirs = crate::iso::directories(path);
    let ghost all = split_on(path@, ':');
    let mut out: Vec<String> = Vec::new();
    let mut i: usize = 0;
    while i < dirs.len()
        invariant
            i <= dirs@.len(),
            views(dirs@) == all,
            views(out@) == all.take(i as int).filter(|d: Seq<char>| d.len() > 0).map_values(|d: Seq<char>| within(d, bin@)),
        decreases dirs@.len() - i,
    {
        let ghost before = out@;
        assert(all.take(i + 1).drop_last() =~= all.take(i as int));
        assert(all[i as int] == dirs@[i as int]@);
        reveal(Seq::filter);
        if !dirs[i].as_str().is_empty() {
            let candidate = crate::iso::join_path(dirs[i].as_str(), bin);
            out.push(candidate);
            assert(all.take(i + 1).filter(|d: Seq<char>| d.len() > 0) =~= all.take(i as int).filter(|d: Seq<char>| d.len() > 0).push(all[i as int]));
            assert(views(out@) =~= views(before).push(within(all[i as int], bin@)));
        } else {
            assert(all.take(i + 1).filter(|d: Seq<char>| d.len() > 0) =~= all.take(i as int).filter(|d: Seq<char>| d.len() > 0));
        }
        i = i + 1;
    }
    assert(all.take(dirs@.len() as int) =~= all);
    out
}

} // verus!
