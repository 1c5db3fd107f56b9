//! What the fake binary sees of a call.

use vstd::prelude::*;
use crate::text::{joined, views};

verus! {

/// One intercepted call, normalised.
///
/// This is the only view a rule has of its caller, and it is also what goes into the render
/// hook.
#[derive(Debug, Clone)]
pub struct Invocation {
    /// The name the fake was invoked under, stripped of its path. This is the name of the faked
    /// binary: the fake is symlinked as `git`, `kubectl` and so on, and finds out which one it is
    /// through its `argv[0]`.
    pub bin: String,
    /// The arguments, without `argv[0]`.
    pub args: Vec<String>,
    /// Standard input, read in full — or empty if nobody asked for it.
    pub stdin: String,
}

impl Default for Invocation {
    fn default() -> (inv: Self)
        ensures
            inv.bin@.len() == 0,
            inv.args@.len() == 0,
            inv.stdin@.len() == 0,
    {
        Invocation { bin: String::new(), args: Vec::new(), stdin: String::new() }
    }
}

/// `path` with every trailing separator and every trailing `.` component removed: the part of the
/// path that names something.
pub open spec fn trimmed(path: Seq<char>) -> Seq<char>
    decreases path.len(),
{
    if path.len() > 0 && path.last() == '/' {
        trimmed(path.drop_last())
    } else if path == seq!['.'] {
        Seq::empty()
    } else if path.len() >= 2 && path.last() == '.' && path[path.len() - 2] == '/' {
        trimmed(path.drop_last())
    } else {
        path
    }
}

/// How many characters of `path` come before its last component: everything up to and including
/// the last separator.
pub open spec fn last_separator_end(path: Seq<char>) -> int
    decreases path.len(),
{
    if path.len() == 0 {
        0
    } else if path.last() == '/' {
        path.len() as int
    } else {
        last_separator_end(path.drop_last())
    }
}

/// The last component of a path, the way `Path::file_name` finds it: empty when the path ends in
/// `..` or names no file at all.
pub open spec fn base_name(path: Seq<char>) -> Seq<char> {
    let t = trimmed(path);
    let last = t.skip(last_separator_end(t));
    if last == seq!['.', '.'] {
        Seq::empty()
    } else {
        last
    }
}

proof fn lemma_separator_end_bounds(path: Seq<char>)
    ensures
        0 <= last_separator_end(path) <= path.len(),
    decreases path.len(),
{
    if path.len() > 0 && path.last() != '/' {
        lemma_separator_end_bounds(path.drop_last());
    }
}

/// The last component of `path`, as [`base_name`] states it.
pub fn base_name_of(path: &str) -> (out: String)
    ensures
        out@ == base_name(path@),
{
    let cs = crate::text::chars_of(path);
    let mut end: usize = cs.len();
    assert(cs@.take(cs.len() as int) =~= cs@);
    // Strip trailing separators and trailing `.` components.
    loop
        invariant
            end <= cs.len(),
            trimmed(cs@.take(end as int)) == trimmed(path@),
            cs@ == path@,
        ensures
            end <= cs.len(),
            trimmed(cs@.take(end as int)) == trimmed(path@),
            trimmed(cs@.take(end as int)) == cs@.take(end as int),
        decreases end,
    {
        let ghost t = cs@.take(end as int);
        if end > 0 && cs[end - 1] == '/' {
            assert(t.drop_last() =~= cs@.take(end - 1));
            end = end - 1;
        } else if end == 1 && cs[0] == '.' {
            assert(t =~= seq!['.']);
            assert(trimmed(t) == Seq::<char>::empty());
            assert(trimmed(cs@.take(0)) =~= Seq::<char>::empty());
            end = 0;
        } else if end >= 2 && cs[end - 1] == '.' && cs[end - 2] == '/' {
            assert(t.drop_last() =~= cs@.take(end - 1));
            assert(t != seq!['.']);
            end = end - 1;
        } else {
            proof {
                assert(t.len() == end);
                if end > 0 {
                    assert(t.last() == cs@[end - 1]);
                }
                if end >= 2 {
                    assert(t[end - 2] == cs@[end - 2]);
                }
                if end == 1 {
                    assert(t.len() == 1);
                    assert(t != seq!['.']) by {
                        if t == seq!['.'] {
                            assert(t[0] == cs[0]);
                        }
                    }
                }
                assert(trimmed(t) == t);
            }
            break;
        }
    }
    let ghost t = cs@.take(end as int);
    assert(trimmed(t) == t);
    assert(t.take(end as int) =~= t);
    let mut start: usize = end;
    while start > 0 && cs[start - 1] != '/'
        invariant
            start <= end <= cs.len(),
            last_separator_end(t) == last_separator_end(t.take(start as int)),
            t == cs@.take(end as int),
        decreases start,
    {
        assert(t.take(start as int).drop_last() =~= t.take(start - 1));
        start = start - 1;
    }
    proof {
        lemma_separator_end_bounds(t);
        assert(last_separator_end(t) == start as int);
    }
    let mut out: Vec<char> = Vec::new();
    let mut i = start;
    while i < end
        invariant
            start <= i <= end <= cs.len(),
            out@ == cs@.subrange(start as int, i as int),
        decreases end - i,
    {
        out.push(cs[i]);
        assert(cs@.subrange(start as int, i + 1) =~= cs@.subrange(start as int, i as int).push(cs@[i as int]));
        i = i + 1;
    }
    assert(out@ =~= t.skip(start as int));
    if out.len() == 2 && out[0] == '.' && out[1] == '.' {
        assert(out@ =~= seq!['.', '.']);
        return String::new();
    }
    proof {
        if out@ == seq!['.', '.'] {
            assert(out@[0] == '.' && out@[1] == '.');
        }
    }
    crate::text::string_of(&out)
}

impl Invocation {
    /// Builds an invocation from an argument vector and what standard input held: the binary is
    /// the base name of the first argument, the arguments are the rest.
    pub fn from_argv(argv: Vec<String>, stdin: String) -> (inv: Self)
        ensures
            argv.len() == 0 ==> inv.bin@.len() == 0 && inv.args@.len() == 0,
            argv.len() > 0 ==> inv.bin@ == base_name(argv@[0]@) && inv.args@ == argv@.drop_first(),
            inv.stdin@ == stdin@,
    {
        if argv.len() == 0 {
            return Invocation { bin: String::new(), args: Vec::new(), stdin };
        }
        let bin = base_name_of(argv[0].as_str());
        let mut args: Vec<String> = Vec::new();
        let mut i: usize = 1;
        while i < argv.len()
            invariant
                1 <= i <= argv.len(),
                args@ == argv@.subrange(1, i as int),
            decreases argv.len() - i,
        {
            args.push(argv[i].clone());
            assert(argv@.subrange(1, i + 1) =~= argv@.subrange(1, i as int).push(argv@[i as int]));
            i = i + 1;
        }
        assert(args@ =~= argv@.drop_first());
        Invocation { bin, args, stdin }
    }

    /// The arguments rejoined with spaces, for `args_contain`.
    ///
    /// The join is naive on purpose: a criterion reads in a case the way it would read in a
    /// terminal, and nobody writes `args_contain` thinking about shell quoting.
    pub fn args_joined(&self) -> (out: String)
        ensures
            out@ == joined(views(self.args@), " "@),
    {
        crate::text::join(&self.args, " ")
    }
}

proof fn lemma_no_separator_end(prefix: Seq<char>, name: Seq<char>)
    requires
        !name.contains('/'),
    ensures
        last_separator_end(prefix + name) == last_separator_end(prefix),
    decreases name.len(),
{
    if name.len() > 0 {
        assert((prefix + name).drop_last() =~= prefix + name.drop_last());
        assert((prefix + name).last() == name.last());
        assert(!name.drop_last().contains('/')) by {
            if name.drop_last().contains('/') {
                let i = choose|i: int| 0 <= i < name.drop_last().len() && name.drop_last()[i] == '/';
                assert(name[i] == '/');
            }
        }
        lemma_no_separator_end(prefix, name.drop_last());
    } else {
        assert(prefix + name =~= prefix);
    }
}

/// A name is its own binary: a call reached through `PATH` under a plain name, or through any
/// directory ending in that name, is the binary of that name. `name` is any non-empty word with
/// no separator that is not `.` or `..`.
pub proof fn law_a_plain_name_is_its_own_binary(dir: Seq<char>, name: Seq<char>)
    requires
        name.len() > 0,
        !name.contains('/'),
        name != seq!['.'],
        name != seq!['.', '.'],
    ensures
        base_name(name) == name,
        base_name(dir + seq!['/'] + name) == name,
{
    assert(name.last() != '/') by {
        assert(name[name.len() - 1] == name.last());
    }
    if name.len() >= 2 {
        assert(name[name.len() - 2] != '/');
    }
    assert(trimmed(name) == name);
    lemma_no_separator_end(Seq::empty(), name);
    assert(Seq::<char>::empty() + name =~= name);
    assert(name.skip(0) =~= name);

    let full = dir + seq!['/'] + name;
    let head = dir + seq!['/'];
    assert(full =~= head + name);
    assert(full.last() == name.last());
    assert(full.len() >= 2 ==> full[full.len() - 2] != '/' || name.len() == 1) by {
        if name.len() >= 2 {
            assert(full[full.len() - 2] == name[name.len() - 2]);
        }
    }
    if name.len() == 1 {
        assert(name.last() != '.') by {
            if name.last() == '.' {
                assert(name =~= seq!['.']);
            }
        }
    }
    assert(full != seq!['.']);
    assert(trimmed(full) == full);
    lemma_no_separator_end(head, name);
    assert(head.last() == '/');
    assert(last_separator_end(head) == head.len());
    assert(full.skip(head.len() as int) =~= name);
}

} // verus!
