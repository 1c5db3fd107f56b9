//! What a run produced, normalised so that expectations behave identically whatever the
//! technology.

use vstd::prelude::*;
use crate::fake::journal::Call;
use crate::iso::snapshot::FileEffect;
use crate::strmap::StrMap;
use crate::value::Value;

verus! {

/// Everything observed about one run.
///
/// Entirely plain data — no file handle, no closure, no live object.
#[derive(Debug)]
pub struct Observations {
    /// The subject's exit code.
    pub exit: i32,
    /// Everything the subject wrote on standard output.
    pub stdout: String,
    /// Everything the subject wrote on standard error.
    pub stderr: String,
    /// The call journal, as the fake left it.
    pub calls: Vec<Call>,
    /// The files the subject created, modified or removed under the isolated root.
    pub files: Vec<FileEffect>,
    /// What an adapter observed that only its own technology produces, kept opaque to the core.
    pub ext: StrMap<Value>,
    /// The status a service answered with, absent when the subject answered no request.
    pub status: Option<u16>,
    /// The response headers, as they were received — spelling included.
    pub headers: StrMap<String>,
    /// The response body.
    pub body: String,
    /// One entry per exchange, for a case that declared `steps:`.
    pub steps: Vec<Observations>,
}

impl Observations {
    /// Observations of a run that produced nothing: exit `0`, empty streams, no call.
    pub fn empty() -> (o: Observations)
        ensures
            o.exit == 0,
            o.stdout@.len() == 0,
            o.stderr@.len() == 0,
            o.calls@.len() == 0,
            o.files@.len() == 0,
            o.ext@ == Map::<Seq<char>, Value>::empty(),
            o.status is None,
            o.headers@ == Map::<Seq<char>, String>::empty(),
            o.body@.len() == 0,
            o.steps@.len() == 0,
    {
        Observations {
            exit: 0,
            stdout: String::new(),
            stderr: String::new(),
            calls: Vec::new(),
            files: Vec::new(),
            ext: StrMap::new(),
            status: None,
            headers: StrMap::new(),
            body: String::new(),
            steps: Vec::new(),
        }
    }
}

} // verus!
