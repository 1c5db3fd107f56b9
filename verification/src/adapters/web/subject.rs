//! The service under test: how a failure to start it, or to see it ready, is reported.

use vstd::prelude::*;
use crate::text::{begins, trimmed};

verus! {

/// What can go wrong starting a service or waiting for it.
#[derive(Debug)]
pub enum SubjectError {
    /// The service could not be started.
    Spawn {
        /// The program that would not start.
        program: String,
        /// The underlying failure.
        source: std::io::Error,
    },
    /// `serve:` named no program.
    NothingToServe,
    /// The service never answered within the readiness timeout.
    NotReady {
        /// How long it was given.
        waited: std::time::Duration,
        /// What was probed: the URL, or a TCP connection.
        probe: String,
        /// What the service wrote on standard error meanwhile.
        stderr: String,
    },
}

/// A duration the way Rust's `Debug` writes one, such as `30s` or `500ms`.
///
/// Calls `Duration`'s `Debug` through `format!`; the spelling is std's, so nothing is stated of it.
#[verifier::external_body]
fn debug_duration(d: &std::time::Duration) -> String {
    format!("{d:?}")
}

/// What the service's standard error is shown as: its text trimmed, or `nothing` when that is
/// empty.
pub open spec fn said(stderr: Seq<char>) -> Seq<char> {
    if trimmed(stderr).len() == 0 {
        "nothing"@
    } else {
        trimmed(stderr)
    }
}

impl SubjectError {
    /// What the failure says.
    pub fn message(&self) -> (text: String)
        ensures
            self matches SubjectError::Spawn { program, .. } ==> begins(text@, "starting the service `"@ + program@ + "`: "@),
            self is NothingToServe ==> text@ == "`serve:` is empty, so there is no service to start"@,
            self matches SubjectError::NotReady { probe, stderr, .. } ==> begins(text@, "the service was not ready after "@)
                && crate::text::ends(text@, " (probing "@ + probe@ + "). Its standard error said: "@ + said(stderr@)),
    {
        match self {
            SubjectError::Spawn { program, source } => {
                let mut out = String::from_str("starting the service `");
                out.append(program.as_str());
                out.append("`: ");
                let ghost head = out@;
                out.append(crate::ext::io_error_text(source).as_str());
                assert(out@.subrange(0, head.len() as int) =~= head);
                out
            },
            SubjectError::NothingToServe => String::from_str("`serve:` is empty, so there is no service to start"),
            SubjectError::NotReady { waited, probe, stderr } => {
                let mut out = String::from_str("the service was not ready after ");
                let ghost head = out@;
                out.append(debug_duration(waited).as_str());
                let ghost mid = out@;
                let trimmed_err = crate::text::trim(stderr.as_str());
                let mut tail = String::from_str(" (probing ");
                tail.append(probe.as_str());
                tail.append("). Its standard error said: ");
                if trimmed_err.as_str().is_empty() {
                    tail.append("nothing");
                } else {
                    tail.append(trimmed_err.as_str());
                }
                out.append(tail.as_str());
                assert(out@.subrange(0, head.len() as int) =~= head);
                assert(out@.subrange(out@.len() - tail@.len(), out@.len() as int) =~= tail@);
                out
            },
        }
    }
}

/// The refusal of a service that never answered: how long it was given, what was probed — a TCP
/// connection when the case names no URL — and what it wrote on standard error meanwhile.
pub fn not_ready(waited: std::time::Duration, probe: Option<&str>, stderr: String) -> (e: SubjectError)
    ensures
        e matches SubjectError::NotReady { waited: w, probe: p, stderr: s } && w == waited && s == stderr
            && p@ == (match probe {
            Some(url) => url@,
            None => "a TCP connection"@,
        }),
{
    let probe_text = match probe {
        Some(url) => String::from_str(url),
        None => String::from_str("a TCP connection"),
    };
    SubjectError::NotReady { waited, probe: probe_text, stderr }
}

} // verus!
