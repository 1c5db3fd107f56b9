//! The case documents, for a renderer that points at the line an assertion came from.

use vstd::prelude::*;
use crate::report::lines::{locate, locate_spec};
use crate::strmap::StrMap;
use crate::text::decimal;

verus! {

/// Every case's file and text, by case name.
///
/// Shared by the renderers that point at a line, so they cannot disagree about where a failure
/// lives.
pub struct Sources {
    documents: StrMap<(String, String)>,
}

/// Where one assertion sits: the file, and the line.
#[derive(Debug, Clone)]
pub struct Located {
    /// The case's file.
    pub path: String,
    /// The line the assertion's path reached, 1-indexed.
    pub line: usize,
}

impl Located {
    /// `path:line`, the form a terminal turns into a link and an editor accepts as an argument.
    pub fn reference(&self) -> (r: String)
        ensures
            r@ == self.path@ + ":"@ + decimal(self.line as nat),
    {
        let mut r = self.path.clone();
        r.append(":");
        r.append(crate::text::decimal_string(self.line as u64).as_str());
        r
    }
}

impl Sources {
    /// The documents by case name: each a file's path and its text.
    pub closed spec fn documents(&self) -> Map<Seq<char>, (String, String)> {
        self.documents@
    }

    /// No document at all.
    pub fn new() -> (s: Sources)
        ensures
            s.documents() == Map::<Seq<char>, (String, String)>::empty(),
    {
        Sources { documents: StrMap::new() }
    }

    /// Adds the document of the case called `name`: the file at `path`, holding `text`. A later
    /// document of the same name replaces an earlier one.
    pub fn add(&mut self, name: String, path: String, text: String)
        ensures
            final(self).documents() == old(self).documents().insert(name@, (path, text)),
    {
        self.documents.insert(name, (path, text));
    }

    /// Where `assertion` sits in `case`, or nothing when the case is not among the loaded ones.
    ///
    /// Absent rather than a guess: a confident `:1` would send the reader to the wrong place.
    pub fn locate(&self, case: &str, assertion: &str) -> (r: Option<Located>)
        ensures
            r is Some <==> self.documents().contains_key(case@),
            r matches Some(found) ==> found.path == self.documents()[case@].0 && found.line as int
                == locate_spec(self.documents()[case@].1@, assertion@),
    {
        match self.documents.get(case) {
            Some(doc) => {
                let line = locate(doc.1.as_str(), assertion);
                Some(Located { path: doc.0.clone(), line })
            },
            None => None,
        }
    }

    /// True when nothing was loaded, so a renderer can skip the lookup entirely.
    pub fn is_empty(&self) -> (b: bool)
        ensures
            b == (self.documents() == Map::<Seq<char>, (String, String)>::empty()),
    {
        let pairs = self.documents.pairs_vec();
        proof {
            self.documents.lemma_view();
            crate::strmap::lemma_map_of_ascending(self.documents.pairs());
            if pairs@.len() == 0 {
                assert(self.documents@ =~= Map::<Seq<char>, (String, String)>::empty());
            } else {
                assert(self.documents@.contains_key(pairs@[0].0@));
            }
        }
        pairs.len() == 0
    }
}

} // verus!
