//! What the engine decided, printed before each case runs.
//!
//! It prints before the verdict on purpose: a case that hangs still leaves behind what it was
//! about to do.

use vstd::prelude::*;
use crate::outcome::Outcome;
use crate::report::{Report, Sink};
use crate::text::views;

verus! {

/// Writes the engine's own decisions, one block per case.
pub struct Verbose {
    out: String,
}

/// The block written for one case: its name, then every line of the note indented under it.
pub open spec fn note_text(case: Seq<char>, note: Seq<Seq<char>>) -> Seq<char>
    decreases note.len(),
{
    if note.len() == 0 {
        "···  "@ + case + "\n"@
    } else {
        note_text(case, note.drop_last()) + "       "@ + note.last() + "\n"@
    }
}

impl Verbose {
    /// What this renderer has written so far.
    pub closed spec fn written(&self) -> Seq<char> {
        self.out@
    }

    /// A renderer with nothing written yet.
    pub fn new() -> (v: Verbose)
        ensures
            v.written().len() == 0,
    {
        Verbose { out: String::new() }
    }

    /// Everything written so far.
    pub fn text(&self) -> (s: &str)
        ensures
            s@ == self.written(),
    {
        self.out.as_str()
    }

    /// Hands over what was written since the last call, leaving the buffer empty.
    pub fn drain(&mut self) -> (s: String)
        ensures
            s@ == old(self).written(),
            final(self).written().len() == 0,
    {
        let mut s = String::new();
        std::mem::swap(&mut s, &mut self.out);
        s
    }
}

impl Sink for Verbose {
    fn preparing(&mut self, case: &str, note: &[String])
        ensures
            final(self).written() == old(self).written() + note_text(case@, views(note@)),
    {
        let mut block = String::from_str("···  ");
        block.append(case);
        block.append("\n");
        let mut i: usize = 0;
        while i < note.len()
            invariant
                i <= note@.len(),
                block@ == note_text(case@, views(note@.take(i as int))),
            decreases note@.len() - i,
        {
            block.append("       ");
            block.append(note[i].as_str());
            block.append("\n");
            proof {
                let next = views(note@.take(i + 1));
                assert(next.drop_last() =~= views(note@.take(i as int)));
                assert(next.last() == note@[i as int]@);
            }
            i = i + 1;
        }
        assert(note@.take(note@.len() as int) =~= note@);
        self.out.append(block.as_str());
    }

    /// Nothing: the verdict is the terminal renderer's job.
    fn case_finished(&mut self, outcome: &Outcome)
        ensures
            final(self).written() == old(self).written(),
    {
    }

    /// Nothing, for the same reason.
    fn finish(&mut self, report: &Report)
        ensures
            final(self).written() == old(self).written(),
    {
    }
}

} // verus!
