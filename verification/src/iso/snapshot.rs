//! The difference a subject made to the tree it ran in.

use vstd::prelude::*;
use crate::fake::counter::fnv1a_of;
use crate::order::before;
use crate::strmap::{StrMap, ascending, keys_of, lemma_map_of_ascending};

verus! {

/// Largest file whose content is captured, in bytes. Beyond it, `content` is `None`.
pub const MAX_CAPTURED_BYTES: usize = 262144;

/// What happened to one file.
#[derive(Debug, Clone, Copy, PartialEq, Eq, Structural)]
pub enum FileChange {
    /// It did not exist before the run.
    Created,
    /// It existed and its content differs.
    Modified,
    /// It existed and no longer does.
    Removed,
}

/// One file the subject touched.
#[derive(Debug, Clone)]
pub struct FileEffect {
    /// Path relative to the isolated root.
    pub path: String,
    /// Whether it was created, modified or removed.
    pub change: FileChange,
    /// Size in bytes after the run. Zero for a removed file.
    pub size: u64,
    /// The content, when it is UTF-8 and small enough to capture.
    pub content: Option<String>,
}

/// Enough of a file to tell whether it changed: its size **and** a hash of its content.
#[derive(Debug, Clone, Copy, PartialEq, Eq, Structural)]
pub struct Fingerprint {
    /// The size in bytes.
    pub size: u64,
    /// The FNV-1a hash of the content.
    pub hash: u64,
}

/// The fingerprint of a file holding `bytes`.
pub fn fingerprint(bytes: &[u8]) -> (f: Fingerprint)
    ensures
        f.size == bytes@.len(),
        f.hash == fnv1a_of(bytes@),
{
    Fingerprint { size: bytes.len() as u64, hash: fnv1a(bytes) }
}

/// FNV-1a, 64 bits. Enough to tell two contents apart; it protects nothing.
pub fn fnv1a(bytes: &[u8]) -> (hash: u64)
    ensures
        hash == fnv1a_of(bytes@),
{
    let mut hash: u64 = 0xcbf2_9ce4_8422_2325;
    let mut i: usize = 0;
    while i < bytes.len()
        invariant
            i <= bytes@.len(),
            hash == fnv1a_of(bytes@.take(i as int)),
        decreases bytes@.len() - i,
    {
        assert(bytes@.take(i + 1).drop_last() =~= bytes@.take(i as int));
        hash = hash ^ (bytes[i] as u64);
        hash = hash.wrapping_mul(0x100_0000_01b3);
        i = i + 1;
    }
    assert(bytes@.take(bytes@.len() as int) =~= bytes@);
    hash
}

/// The first component of a relative path: what comes before its first `/`.
pub open spec fn first_component(relative: Seq<char>) -> Seq<char>
    decreases relative.len(),
{
    if relative.len() == 0 || relative[0] == '/' {
        Seq::empty()
    } else {
        seq![relative[0]] + first_component(relative.drop_first())
    }
}

/// True for the paths gaveldrop itself writes into the isolated root: the scenario, the journal,
/// the call counter and the directory of symlinks.
pub open spec fn bookkeeping(relative: Seq<char>) -> bool {
    let first = first_component(relative);
    first == "scenario.yaml"@ || first == "journal.jsonl"@ || first == "state"@ || first == "bin"@
}

/// True for the paths gaveldrop itself writes into the isolated root.
pub fn is_engine_bookkeeping(relative: &str) -> (b: bool)
    ensures
        b == bookkeeping(relative@),
{
    let cs = crate::text::chars_of(relative);
    let mut first = String::new();
    let mut i: usize = 0;
    assert(cs@.skip(0) =~= cs@);
    assert(first@ + first_component(cs@.skip(0)) =~= first_component(cs@));
    while i < cs.len() && cs[i] != '/'
        invariant
            i <= cs.len(),
            cs@ == relative@,
            forall|j: int| 0 <= j < i ==> cs@[j] != '/',
            first@ + first_component(cs@.skip(i as int)) == first_component(cs@),
        decreases cs.len() - i,
    {
        let ghost before = first@;
        crate::text::push_char(&mut first, cs[i]);
        assert(cs@.skip(i as int).drop_first() =~= cs@.skip(i + 1));
        assert(cs@.skip(i as int)[0] == cs@[i as int]);
        assert(first@ + first_component(cs@.skip(i + 1)) =~= before + first_component(cs@.skip(i as int)));
        i = i + 1;
    }
    assert(first_component(cs@.skip(i as int)) =~= Seq::<char>::empty());
    assert(first@ =~= first_component(relative@));
    crate::order::same(first.as_str(), "scenario.yaml") || crate::order::same(first.as_str(), "journal.jsonl")
        || crate::order::same(first.as_str(), "state") || crate::order::same(first.as_str(), "bin")
}

/// One file the subject touched, before its content is read.
#[derive(Debug, Clone)]
pub struct Change {
    /// Path relative to the isolated root.
    pub path: String,
    /// Whether it was created, modified or removed.
    pub change: FileChange,
    /// Size in bytes after the run. Zero for a removed file.
    pub size: u64,
}

/// What happened to the file at `path`, given the tree before and after: created, modified, or
/// nothing worth reporting.
pub open spec fn change_of(
    before: Map<Seq<char>, Fingerprint>,
    path: Seq<char>,
    now: Fingerprint,
) -> Option<FileChange> {
    if !before.contains_key(path) {
        Some(FileChange::Created)
    } else if before[path] != now {
        Some(FileChange::Modified)
    } else {
        None
    }
}

/// The paths of a list of changes, in order.
pub open spec fn paths_of(changes: Seq<Change>) -> Seq<Seq<char>> {
    changes.map_values(|c: Change| c.path@)
}

/// `c` truthfully describes how the file at its path went from `before` to `after`.
pub open spec fn describes(before: Map<Seq<char>, Fingerprint>, after: Map<Seq<char>, Fingerprint>, c: Change) -> bool {
    match c.change {
        FileChange::Removed => before.contains_key(c.path@) && !after.contains_key(c.path@) && c.size == 0,
        other => after.contains_key(c.path@) && change_of(before, c.path@, after[c.path@]) == Some(other)
            && c.size == after[c.path@].size,
    }
}

/// The state of a tree at a point in time: every file under the root, by path relative to it,
/// with its fingerprint.
///
/// Walking the tree is the caller's work — skipping what [`is_engine_bookkeeping`] names — and
/// each file it finds is recorded here.
#[derive(Debug)]
pub struct Snapshot {
    files: StrMap<Fingerprint>,
}

impl View for Snapshot {
    type V = Map<Seq<char>, Fingerprint>;

    closed spec fn view(&self) -> Map<Seq<char>, Fingerprint> {
        self.files@
    }
}

impl Default for Snapshot {
    fn default() -> (s: Self)
        ensures
            s@ == Map::<Seq<char>, Fingerprint>::empty(),
    {
        Snapshot { files: StrMap::new() }
    }
}

impl Snapshot {
    /// Records that the file at `relative` has fingerprint `fingerprint`.
    pub fn record(&mut self, relative: String, fingerprint: Fingerprint)
        ensures
            final(self)@ == old(self)@.insert(relative@, fingerprint),
    {
        self.files.insert(relative, fingerprint);
    }

    /// What changed between this snapshot and `after`, in path order: every file of `after` that
    /// is new or whose fingerprint differs, and every file of this one that is gone.
    ///
    /// Size **and** content hash decide, so an in-place edit that keeps the length is still seen.
    pub fn changes_since(&self, after: &Snapshot) -> (out: Vec<Change>)
        ensures
            ascending(paths_of(out@)),
            forall|i: int| 0 <= i < out@.len() ==> describes(self@, after@, #[trigger] out@[i]),
            forall|p: Seq<char>|
                after@.contains_key(p) && change_of(self@, p, after@[p]) is Some ==> exists|i: int|
                    0 <= i < out@.len() && (#[trigger] out@[i]).path@ == p,
            forall|p: Seq<char>|
                self@.contains_key(p) && !after@.contains_key(p) ==> exists|i: int|
                    0 <= i < out@.len() && (#[trigger] out@[i]).path@ == p,
    {
        let now = after.files.pairs_vec();
        let was = self.files.pairs_vec();
        proof {
            after.files.lemma_view();
            self.files.lemma_view();
            lemma_map_of_ascending(after.files.pairs());
            lemma_map_of_ascending(self.files.pairs());
        }
        let mut union: StrMap<bool> = StrMap::new();
        let mut i: usize = 0;
        while i < now.len()
            invariant
                i <= now@.len(),
                now@ == after.files.pairs(),
                forall|k: Seq<char>| union@.contains_key(k) <==> exists|j: int| 0 <= j < i && (#[trigger] now@[j]).0@ == k,
            decreases now@.len() - i,
        {
            let ghost prev = union@;
            union.insert(now[i].0.clone(), true);
            proof {
                assert forall|k: Seq<char>| union@.contains_key(k) <==> exists|j: int|
                    0 <= j < i + 1 && (#[trigger] now@[j]).0@ == k by {
                    if union@.contains_key(k) && k != now@[i as int].0@ {
                        assert(prev.contains_key(k));
                    }
                    if k == now@[i as int].0@ {
                        assert(now@[i as int].0@ == k);
                    }
                }
            }
            i = i + 1;
        }
        let mut k: usize = 0;
        while k < was.len()
            invariant
                k <= was@.len(),
                now@ == after.files.pairs(),
                was@ == self.files.pairs(),
                forall|key: Seq<char>| union@.contains_key(key) <==> (exists|j: int| 0 <= j < now@.len() && (#[trigger] now@[j]).0@ == key)
                    || (exists|j: int| 0 <= j < k && (#[trigger] was@[j]).0@ == key),
            decreases was@.len() - k,
        {
            let ghost prev = union@;
            union.insert(was[k].0.clone(), true);
            proof {
                assert forall|key: Seq<char>| union@.contains_key(key) <==> (exists|j: int|
                    0 <= j < now@.len() && (#[trigger] now@[j]).0@ == key) || (exists|j: int|
                    0 <= j < k + 1 && (#[trigger] was@[j]).0@ == key) by {
                    if union@.contains_key(key) && key != was@[k as int].0@ {
                        assert(prev.contains_key(key));
                    }
                    if key == was@[k as int].0@ {
                        assert(was@[k as int].0@ == key);
                    }
                }
            }
            k = k + 1;
        }
        proof {
            assert forall|key: Seq<char>| union@.contains_key(key) <==> (after@.contains_key(key) || self@.contains_key(key)) by {
                let ka = keys_of(after.files.pairs());
                let kb = keys_of(self.files.pairs());
                if after@.contains_key(key) {
                    let j = ka.index_of(key);
                    assert(now@[j].0@ == key);
                }
                if self@.contains_key(key) {
                    let j = kb.index_of(key);
                    assert(was@[j].0@ == key);
                }
                if exists|j: int| 0 <= j < now@.len() && (#[trigger] now@[j]).0@ == key {
                    let j = choose|j: int| 0 <= j < now@.len() && (#[trigger] now@[j]).0@ == key;
                    assert(ka[j] == key);
                }
                if exists|j: int| 0 <= j < was@.len() && (#[trigger] was@[j]).0@ == key {
                    let j = choose|j: int| 0 <= j < was@.len() && (#[trigger] was@[j]).0@ == key;
                    assert(kb[j] == key);
                }
            }
        }
        let keys = union.pairs_vec();
        proof {
            union.lemma_view();
            lemma_map_of_ascending(union.pairs());
        }
        let mut out: Vec<Change> = Vec::new();
        let mut n: usize = 0;
        while n < keys.len()
            invariant
                n <= keys@.len(),
                keys@ == union.pairs(),
                ascending(keys_of(keys@)),
                forall|key: Seq<char>| union@.contains_key(key) <==> (after@.contains_key(key) || self@.contains_key(key)),
                forall|key: Seq<char>| union@.contains_key(key) <==> keys_of(keys@).contains(key),
                ascending(paths_of(out@)),
                forall|q: int| 0 <= q < out@.len() ==> describes(self@, after@, #[trigger] out@[q]),
                forall|q: int| 0 <= q < out@.len() ==> exists|j: int| 0 <= j < n && (#[trigger] out@[q]).path@ == keys@[j].0@,
                forall|j: int|
                    0 <= j < n && ((after@.contains_key(#[trigger] keys@[j].0@) && change_of(self@, keys@[j].0@, after@[keys@[j].0@]) is Some)
                        || (self@.contains_key(keys@[j].0@) && !after@.contains_key(keys@[j].0@))) ==> exists|q: int|
                        0 <= q < out@.len() && (#[trigger] out@[q]).path@ == keys@[j].0@,
            decreases keys@.len() - n,
        {
            let path = &keys[n].0;
            let ghost p = path@;
            assert(keys_of(keys@)[n as int] == p);
            let kind: Option<(FileChange, u64)> = match after.files.get(path.as_str()) {
                Some(a) => match self.files.get(path.as_str()) {
                    None => Some((FileChange::Created, a.size)),
                    Some(b) => if *b != *a {
                        Some((FileChange::Modified, a.size))
                    } else {
                        None
                    },
                },
                None => match self.files.get(path.as_str()) {
                    Some(_) => Some((FileChange::Removed, 0)),
                    None => None,
                },
            };
            let ghost prev = out@;
            match kind {
                Some((change, size)) => {
                    out.push(Change { path: path.clone(), change, size });
                    proof {
                        assert forall|q: int| 0 <= q < prev.len() implies before(paths_of(out@)[q], p) by {
                            let j = choose|j: int| 0 <= j < n && (#[trigger] prev[q]).path@ == keys@[j].0@;
                            assert(keys_of(keys@)[j] == keys@[j].0@);
                            assert(before(keys_of(keys@)[j], keys_of(keys@)[n as int]));
                        }
                        assert forall|a: int, b: int| 0 <= a < b < out@.len() implies before(
                            #[trigger] paths_of(out@)[a],
                            #[trigger] paths_of(out@)[b],
                        ) by {
                            if b < prev.len() {
                                assert(paths_of(out@)[a] == paths_of(prev)[a]);
                                assert(paths_of(out@)[b] == paths_of(prev)[b]);
                            }
                        }
                        assert forall|q: int| 0 <= q < out@.len() implies exists|j: int|
                            0 <= j < n + 1 && (#[trigger] out@[q]).path@ == keys@[j].0@ by {
                            if q < prev.len() {
                                let j = choose|j: int| 0 <= j < n && (#[trigger] prev[q]).path@ == keys@[j].0@;
                                assert(out@[q] == prev[q]);
                            } else {
                                assert(out@[q].path@ == keys@[n as int].0@);
                            }
                        }
                        assert(out@[out@.len() - 1].path@ == p);
                    }
                },
                None => {
                    proof {
                        assert forall|q: int| 0 <= q < out@.len() implies exists|j: int|
                            0 <= j < n + 1 && (#[trigger] out@[q]).path@ == keys@[j].0@ by {
                            let j = choose|j: int| 0 <= j < n && (#[trigger] out@[q]).path@ == keys@[j].0@;
                        }
                    }
                },
            }
            proof {
                assert forall|j: int|
                    0 <= j < n + 1 && ((after@.contains_key(#[trigger] keys@[j].0@) && change_of(self@, keys@[j].0@, after@[keys@[j].0@]) is Some)
                        || (self@.contains_key(keys@[j].0@) && !after@.contains_key(keys@[j].0@))) implies exists|q: int|
                        0 <= q < out@.len() && (#[trigger] out@[q]).path@ == keys@[j].0@ by {
                    if j == n {
                        assert(out@[out@.len() - 1].path@ == p);
                    } else {
                        let w = choose|w: int| 0 <= w < prev.len() && (#[trigger] prev[w]).path@ == keys@[j].0@;
                        assert(out@[w] == prev[w]);
                    }
                }
            }
            n = n + 1;
        }
        proof {
            assert forall|p: Seq<char>|
                after@.contains_key(p) && change_of(self@, p, after@[p]) is Some implies exists|i: int|
                    0 <= i < out@.len() && (#[trigger] out@[i]).path@ == p by {
                let j = keys_of(keys@).index_of(p);
                assert(keys@[j].0@ == p);
            }
            assert forall|p: Seq<char>|
                self@.contains_key(p) && !after@.contains_key(p) implies exists|i: int|
                    0 <= i < out@.len() && (#[trigger] out@[i]).path@ == p by {
                let j = keys_of(keys@).index_of(p);
                assert(keys@[j].0@ == p);
            }
        }
        out
    }
}

/// The content of a changed file is worth reading: it is under [`MAX_CAPTURED_BYTES`].
///
/// `None` then means "not assertable", never "empty".
pub fn capturable(size: u64) -> (b: bool)
    ensures
        b == (size <= MAX_CAPTURED_BYTES),
{
    size <= MAX_CAPTURED_BYTES as u64
}


/// A tree compared with itself has changed nowhere: the difference reports what the subject did,
/// never what was already there.
pub proof fn law_an_untouched_tree_reports_nothing(tree: Map<Seq<char>, Fingerprint>, c: Change)
    ensures
        !describes(tree, tree, c),
{
}

} // verus!
