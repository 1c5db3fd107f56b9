//! Listing the cases a project has, for something other than a person to read.
//!
//! An editor's test interface needs the tree **before** anything runs: a name to show, a file and a
//! line to jump to, a weight to sort by.

use vstd::prelude::*;
use crate::report::lines::{locate, locate_spec};

verus! {

/// One case, as something outside gaveldrop needs to see it.
#[derive(Debug, Clone, PartialEq, Eq)]
pub struct Found {
    /// The case's name, which is also its identifier in every report.
    pub name: String,
    /// Where the document is, relative to wherever discovery started.
    pub path: String,
    /// The line the case's `name:` sits on, so an editor can jump to it.
    pub line: usize,
    /// How much this case matters, for sorting a list by consequence.
    pub weight: u32,
    /// Whether it is a declared known failure.
    pub allow_fail: bool,
    /// How many exchanges it performs, or `0` for a single invocation.
    pub steps: usize,
}

/// A case that could not be read, reported rather than dropped.
#[derive(Debug, Clone, PartialEq, Eq)]
pub struct Unreadable {
    /// The file that would not load.
    pub path: String,
    /// Why, in the loader's own words.
    pub reason: String,
}

/// Everything discovery found, readable and not.
///
/// A broken document is **listed**, not skipped.
#[derive(Debug, Clone, PartialEq, Eq)]
pub struct Discovered {
    /// The cases that loaded.
    pub cases: Vec<Found>,
    /// The files that did not.
    pub unreadable: Vec<Unreadable>,
}

impl Default for Discovered {
    fn default() -> (d: Self)
        ensures
            d.cases@.len() == 0,
            d.unreadable@.len() == 0,
    {
        Discovered { cases: Vec::new(), unreadable: Vec::new() }
    }
}

/// What reading one file gave: the loaded case's text and what it declares, or why it would not
/// load.
#[derive(Debug, Clone)]
pub enum Reading {
    /// The document loaded.
    Loaded {
        /// The file.
        path: String,
        /// Its text.
        text: String,
        /// The case's name.
        name: String,
        /// The case's weight.
        weight: u32,
        /// Whether the case is a declared known failure.
        allow_fail: bool,
        /// How many exchanges it declares.
        steps: usize,
    },
    /// The document did not load.
    Failed {
        /// The file.
        path: String,
        /// Why, in the loader's own words.
        reason: String,
    },
}

/// Whether `f` lists the loaded reading `r`, with the line its `name:` sits on.
pub open spec fn lists(f: Found, r: Reading) -> bool {
    r matches Reading::Loaded { path, text, name, weight, allow_fail, steps } && f.name@ == name@
        && f.path@ == path@ && f.line as int == locate_spec(text@, "name"@) && f.weight == weight
        && f.allow_fail == allow_fail && f.steps == steps
}

/// Whether `u` reports the failed reading `r`.
pub open spec fn reports(u: Unreadable, r: Reading) -> bool {
    r matches Reading::Failed { path, reason } && u.path@ == path@ && u.reason@ == reason@
}

/// The loaded readings of `rs`, in order.
pub open spec fn loaded(rs: Seq<Reading>) -> Seq<Reading>
    decreases rs.len(),
{
    if rs.len() == 0 {
        Seq::empty()
    } else if rs.last() is Loaded {
        loaded(rs.drop_last()).push(rs.last())
    } else {
        loaded(rs.drop_last())
    }
}

/// The failed readings of `rs`, in order.
pub open spec fn failed(rs: Seq<Reading>) -> Seq<Reading>
    decreases rs.len(),
{
    if rs.len() == 0 {
        Seq::empty()
    } else if rs.last() is Failed {
        failed(rs.drop_last()).push(rs.last())
    } else {
        failed(rs.drop_last())
    }
}

/// Reads every file's outcome into something machine-readable: each loaded case listed with the
/// line of its `name:`, each failed one listed with its reason, both in the order given.
pub fn inspect(readings: &[Reading]) -> (d: Discovered)
    ensures
        d.cases@.len() == loaded(readings@).len(),
        forall|i: int| 0 <= i < d.cases@.len() ==> lists(#[trigger] d.cases@[i], loaded(readings@)[i]),
        d.unreadable@.len() == failed(readings@).len(),
        forall|i: int|
            0 <= i < d.unreadable@.len() ==> reports(#[trigger] d.unreadable@[i], failed(readings@)[i]),
{
    let mut cases: Vec<Found> = Vec::new();
    let mut unreadable: Vec<Unreadable> = Vec::new();
    let mut i: usize = 0;
    while i < readings.len()
        invariant
            i <= readings@.len(),
            cases@.len() == loaded(readings@.take(i as int)).len(),
            forall|j: int|
                0 <= j < cases@.len() ==> lists(#[trigger] cases@[j], loaded(readings@.take(i as int))[j]),
            unreadable@.len() == failed(readings@.take(i as int)).len(),
            forall|j: int|
                0 <= j < unreadable@.len() ==> reports(#[trigger] unreadable@[j], failed(readings@.take(i as int))[j]),
        decreases readings@.len() - i,
    {
        assert(readings@.take(i + 1).drop_last() =~= readings@.take(i as int));
        match &readings[i] {
            Reading::Loaded { path, text, name, weight, allow_fail, steps } => {
                let line = locate(text.as_str(), "name");
                cases.push(
                    Found {
                        name: name.clone(),
                        path: path.clone(),
                        line,
                        weight: *weight,
                        allow_fail: *allow_fail,
                        steps: *steps,
                    },
                );
            },
            Reading::Failed { path, reason } => {
                unreadable.push(Unreadable { path: path.clone(), reason: reason.clone() });
            },
        }
        i = i + 1;
    }
    assert(readings@.take(readings@.len() as int) =~= readings@);
    Discovered { cases, unreadable }
}

} // verus!
