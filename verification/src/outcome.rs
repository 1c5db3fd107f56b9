//! The verdict on one case, as every renderer receives it.

use vstd::prelude::*;

verus! {

/// One expectation that did not hold: where it is written, what it asked for, what was found.
#[derive(Debug, Clone)]
pub struct Diff {
    /// The expectation's path in the case, such as `expect.stdout.absent[0]`.
    pub path: String,
    /// What the expectation asked for, worded for a reader.
    pub expected: String,
    /// What the subject produced instead.
    pub got: String,
}

/// The verdict on one case.
#[derive(Debug, Clone)]
pub struct Outcome {
    /// The case's name.
    pub name: String,
    /// The case's weight in the score.
    pub weight: u32,
    /// Whether the case was declared `allow_fail`.
    pub allow_fail: bool,
    /// Whether every expectation held.
    pub passed: bool,
    /// Every expectation that did not hold.
    pub diffs: Vec<Diff>,
    /// The calls the fake answered with no expectation about them.
    pub unexpected_calls: Vec<String>,
    /// Files written under the isolated root that no expectation mentions.
    pub unmentioned_files: Vec<String>,
    /// How long the case took, in milliseconds.
    pub duration_ms: u64,
}

/// The outcome of a case that failed before any expectation could be checked.
///
/// Reported the same way as a mismatch, so callers never need to special-case it: the diff's path
/// says `setup` rather than `expect.…`.
pub fn setup_failure(name: &str, weight: u32, reason: String) -> (o: Outcome)
    ensures
        o.name@ == name@,
        o.weight == weight,
        !o.allow_fail,
        !o.passed,
        o.diffs@.len() == 1,
        o.diffs@[0].path@ == "setup"@,
        o.diffs@[0].expected@ == "the case runs"@,
        o.diffs@[0].got@ == reason@,
        o.unexpected_calls@.len() == 0,
        o.unmentioned_files@.len() == 0,
        o.duration_ms == 0,
{
    let mut diffs: Vec<Diff> = Vec::new();
    diffs.push(
        Diff { path: String::from_str("setup"), expected: String::from_str("the case runs"), got: reason },
    );
    Outcome {
        name: String::from_str(name),
        weight,
        allow_fail: false,
        passed: false,
        diffs,
        unexpected_calls: Vec::new(),
        unmentioned_files: Vec::new(),
        duration_ms: 0,
    }
}

/// Whether `a` and `b` carry the same verdict, field for field.
pub open spec fn alike(a: Outcome, b: Outcome) -> bool {
    &&& a.name == b.name
    &&& a.weight == b.weight
    &&& a.allow_fail == b.allow_fail
    &&& a.passed == b.passed
    &&& a.diffs@ == b.diffs@
    &&& a.unexpected_calls@ == b.unexpected_calls@
    &&& a.unmentioned_files@ == b.unmentioned_files@
    &&& a.duration_ms == b.duration_ms
}

impl Diff {
    /// A copy of this diff.
    pub fn copied(&self) -> (d: Diff)
        ensures
            d == *self,
    {
        Diff { path: self.path.clone(), expected: self.expected.clone(), got: self.got.clone() }
    }
}

fn strings_copied(v: &Vec<String>) -> (out: Vec<String>)
    ensures
        out@ == v@,
{
    let mut out: Vec<String> = Vec::new();
    let mut i: usize = 0;
    while i < v.len()
        invariant
            i <= v.len(),
            out@ == v@.take(i as int),
        decreases v.len() - i,
    {
        out.push(v[i].clone());
        assert(out@ =~= v@.take(i + 1));
        i = i + 1;
    }
    assert(out@ =~= v@);
    out
}

impl Outcome {
    /// A copy of this outcome.
    pub fn copied(&self) -> (o: Outcome)
        ensures
            alike(o, *self),
    {
        let mut diffs: Vec<Diff> = Vec::new();
        let mut i: usize = 0;
        while i < self.diffs.len()
            invariant
                i <= self.diffs.len(),
                diffs@ == self.diffs@.take(i as int),
            decreases self.diffs.len() - i,
        {
            diffs.push(self.diffs[i].copied());
            assert(diffs@ =~= self.diffs@.take(i + 1));
            i = i + 1;
        }
        assert(diffs@ =~= self.diffs@);
        Outcome {
            name: self.name.clone(),
            weight: self.weight,
            allow_fail: self.allow_fail,
            passed: self.passed,
            diffs,
            unexpected_calls: strings_copied(&self.unexpected_calls),
            unmentioned_files: strings_copied(&self.unmentioned_files),
            duration_ms: self.duration_ms,
        }
    }
}

} // verus!
