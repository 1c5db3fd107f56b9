//! Resolving the paths a case writes.
//!
//! This is the format's **only** interpolation, and it is bounded: a case may use exactly the
//! variables isolation itself defines — `$HOME`, the `XDG_*` family — plus a leading `~`. No shell
//! expansion, and nothing from the environment of whoever runs the tests.

use vstd::prelude::*;
use crate::config::{debug_quoted, quoted};
use crate::strmap::StrMap;
use crate::text::{begins, joined, split_on};

verus! {

/// A path a case could not resolve.
#[derive(Debug)]
pub enum PathError {
    /// The path names a variable isolation does not define.
    UnknownVariable {
        /// The variable nobody defines.
        name: String,
        /// The path it appeared in.
        pattern: String,
        /// The variables that would have worked, comma-separated.
        available: String,
    },
    /// The path resolves somewhere isolation does not reach.
    OutsideRoot {
        /// The path as the case wrote it.
        pattern: String,
        /// Where it landed.
        resolved: String,
    },
}

/// What the failure says.
pub open spec fn path_error_text(e: PathError) -> Seq<char> {
    match e {
        PathError::UnknownVariable { name, pattern, available } => "unknown variable $"@ + name@
            + " in path "@ + debug_quoted(pattern@)
            + ". A case may only use what isolation defines: "@ + available@,
        PathError::OutsideRoot { pattern, resolved } => "path "@ + debug_quoted(pattern@)
            + " resolves to "@ + resolved@
            + ", outside the isolated root. Nothing is observed out there, so no assertion about it could ever hold"@,
    }
}

impl PathError {
    /// What the failure says.
    pub fn message(&self) -> (text: String)
        ensures
            text@ == path_error_text(*self),
    {
        match self {
            PathError::UnknownVariable { name, pattern, available } => {
                let mut out = String::from_str("unknown variable $");
                out.append(name.as_str());
                out.append(" in path ");
                out.append(quoted(pattern.as_str()).as_str());
                out.append(". A case may only use what isolation defines: ");
                out.append(available.as_str());
                out
            },
            PathError::OutsideRoot { pattern, resolved } => {
                let mut out = String::from_str("path ");
                out.append(quoted(pattern.as_str()).as_str());
                out.append(" resolves to ");
                out.append(resolved.as_str());
                out.append(
                    ", outside the isolated root. Nothing is observed out there, so no assertion about it could ever hold",
                );
                out
            },
        }
    }
}

/// A character a bare variable name may hold: an ASCII letter or digit, or `_`.
pub open spec fn name_char(c: char) -> bool {
    ('a' <= c && c <= 'z') || ('A' <= c && c <= 'Z') || ('0' <= c && c <= '9') || c == '_'
}

/// The first `$` at or after `pos`, or the end.
pub open spec fn dollar_at(cs: Seq<char>, pos: int) -> int
    decreases cs.len() - pos,
{
    if pos >= cs.len() {
        cs.len() as int
    } else if cs[pos] == '$' {
        pos
    } else {
        dollar_at(cs, pos + 1)
    }
}

/// Where a bare name starting at `pos` ends.
pub open spec fn name_end(cs: Seq<char>, pos: int) -> int
    decreases cs.len() - pos,
{
    if pos >= cs.len() {
        cs.len() as int
    } else if name_char(cs[pos]) {
        name_end(cs, pos + 1)
    } else {
        pos
    }
}

/// The first `}` at or after `pos`, or the end.
pub open spec fn brace_at(cs: Seq<char>, pos: int) -> int
    decreases cs.len() - pos,
{
    if pos >= cs.len() {
        cs.len() as int
    } else if cs[pos] == '}' {
        pos
    } else {
        brace_at(cs, pos + 1)
    }
}

/// The scans stop where they say, within the text, on the character they look for.
pub proof fn lemma_scans(cs: Seq<char>, pos: int)
    requires
        0 <= pos <= cs.len(),
    ensures
        pos <= dollar_at(cs, pos) <= cs.len(),
        pos <= name_end(cs, pos) <= cs.len(),
        pos <= brace_at(cs, pos) <= cs.len(),
        dollar_at(cs, pos) < cs.len() ==> cs[dollar_at(cs, pos)] == '$',
        brace_at(cs, pos) < cs.len() ==> cs[brace_at(cs, pos)] == '}',
        forall|j: int| pos <= j < dollar_at(cs, pos) ==> cs[j] != '$',
        forall|j: int| pos <= j < brace_at(cs, pos) ==> cs[j] != '}',
        forall|j: int| pos <= j < name_end(cs, pos) ==> name_char(cs[j]),
        name_end(cs, pos) < cs.len() ==> !name_char(cs[name_end(cs, pos)]),
    decreases cs.len() - pos,
{
    if pos < cs.len() {
        lemma_scans(cs, pos + 1);
    }
}

/// The variable after the `$` at `at`: where its name starts and ends, where the text resumes
/// after it, and whether it was braced.
pub open spec fn name_span(cs: Seq<char>, at: int) -> (int, int, int, bool) {
    if at + 1 < cs.len() && cs[at + 1] == '{' {
        let e = brace_at(cs, at + 2);
        (at + 2, e, if e < cs.len() { e + 1 } else { cs.len() as int }, true)
    } else {
        let e = name_end(cs, at + 1);
        (at + 1, e, e, false)
    }
}

/// A variable's name lies after its `$`, and the text resumes after the name.
pub proof fn lemma_span(cs: Seq<char>, at: int)
    requires
        0 <= at < cs.len(),
    ensures
        at < name_span(cs, at).0 <= name_span(cs, at).1 <= name_span(cs, at).2 <= cs.len(),
        at < name_span(cs, at).2,
{
    if at + 1 < cs.len() && cs[at + 1] == '{' {
        lemma_scans(cs, at + 2);
    } else {
        lemma_scans(cs, at + 1);
    }
}

/// What a command line becomes from `pos` on: each variable isolation defines replaced by its
/// value, every other one left exactly as written.
pub open spec fn known_from(cs: Seq<char>, pos: int, defined: Map<Seq<char>, String>) -> Seq<char>
    decreases cs.len() - pos,
{
    if pos < 0 || pos >= cs.len() {
        Seq::empty()
    } else {
        let at = dollar_at(cs, pos);
        proof {
            lemma_scans(cs, pos);
        }
        if at >= cs.len() {
            cs.subrange(pos, cs.len() as int)
        } else {
            let span = name_span(cs, at);
            proof {
                lemma_span(cs, at);
            }
            let name = cs.subrange(span.0, span.1);
            cs.subrange(pos, at) + (if defined.contains_key(name) {
                defined[name]@
            } else if span.3 {
                "${"@ + name + "}"@
            } else {
                "$"@ + name
            }) + known_from(cs, span.2, defined)
        }
    }
}

fn scan_dollar(cs: &Vec<char>, pos: usize) -> (at: usize)
    requires
        pos <= cs.len(),
    ensures
        at == dollar_at(cs@, pos as int),
{
    proof {
        lemma_scans(cs@, pos as int);
    }
    let mut i = pos;
    while i < cs.len() && cs[i] != '$'
        invariant
            pos <= i <= cs.len(),
            dollar_at(cs@, i as int) == dollar_at(cs@, pos as int),
        decreases cs.len() - i,
    {
        i = i + 1;
    }
    i
}

fn is_name_char(c: char) -> (b: bool)
    ensures
        b == name_char(c),
{
    ('a' <= c && c <= 'z') || ('A' <= c && c <= 'Z') || ('0' <= c && c <= '9') || c == '_'
}

fn scan_span(cs: &Vec<char>, at: usize) -> (span: (usize, usize, usize, bool))
    requires
        at < cs.len(),
    ensures
        span.0 as int == name_span(cs@, at as int).0,
        span.1 as int == name_span(cs@, at as int).1,
        span.2 as int == name_span(cs@, at as int).2,
        span.3 == name_span(cs@, at as int).3,
{
    proof {
        lemma_span(cs@, at as int);
    }
    if at + 1 < cs.len() && cs[at + 1] == '{' {
        let mut e = at + 2;
        while e < cs.len() && cs[e] != '}'
            invariant
                at + 2 <= e <= cs.len(),
                brace_at(cs@, e as int) == brace_at(cs@, at + 2),
            decreases cs.len() - e,
        {
            e = e + 1;
        }
        let resume = if e < cs.len() { e + 1 } else { cs.len() };
        (at + 2, e, resume, true)
    } else {
        let mut e = at + 1;
        while e < cs.len() && is_name_char(cs[e])
            invariant
                at + 1 <= e <= cs.len(),
                name_end(cs@, e as int) == name_end(cs@, at + 1),
            decreases cs.len() - e,
        {
            e = e + 1;
        }
        (at + 1, e, e, false)
    }
}

fn slice_string(cs: &Vec<char>, from: usize, to: usize) -> (out: String)
    requires
        from <= to <= cs.len(),
    ensures
        out@ == cs@.subrange(from as int, to as int),
{
    let mut out = String::new();
    let mut i = from;
    while i < to
        invariant
            from <= i <= to <= cs.len(),
            out@ == cs@.subrange(from as int, i as int),
        decreases to - i,
    {
        crate::text::push_char(&mut out, cs[i]);
        assert(cs@.subrange(from as int, i + 1) =~= cs@.subrange(from as int, i as int).push(cs@[i as int]));
        i = i + 1;
    }
    out
}

/// Substitutes what isolation defines and leaves everything else alone.
///
/// For a **command line**, not a path: unknown names are left literal, because a command is very
/// often a shell script and `${MYVAR-default}` is that shell's syntax to read.
pub fn expand_known(pattern: &str, defined: &StrMap<String>) -> (out: String)
    ensures
        out@ == known_from(pattern@, 0, defined@),
{
    let cs = crate::text::chars_of(pattern);
    let mut out = String::new();
    let mut pos: usize = 0;
    while pos < cs.len()
        invariant
            pos <= cs.len(),
            cs@ == pattern@,
            out@ + known_from(cs@, pos as int, defined@) == known_from(cs@, 0, defined@),
        decreases cs.len() - pos,
    {
        let at = scan_dollar(&cs, pos);
        proof {
            lemma_scans(cs@, pos as int);
        }
        if at >= cs.len() {
            let tail = slice_string(&cs, pos, cs.len());
            let ghost before = out@;
            out.append(tail.as_str());
            assert(known_from(cs@, cs.len() as int, defined@) =~= Seq::<char>::empty());
            assert(out@ + known_from(cs@, cs.len() as int, defined@) =~= before + known_from(
                cs@,
                pos as int,
                defined@,
            ));
            pos = cs.len();
        } else {
            let span = scan_span(&cs, at);
            proof {
                lemma_span(cs@, at as int);
            }
            let head = slice_string(&cs, pos, at);
            let name = slice_string(&cs, span.0, span.1);
            let ghost before = out@;
            out.append(head.as_str());
            match defined.get(name.as_str()) {
                Some(value) => {
                    out.append(value.as_str());
                },
                None => {
                    if span.3 {
                        out.append("${");
                        out.append(name.as_str());
                        out.append("}");
                    } else {
                        out.append("$");
                        out.append(name.as_str());
                    }
                },
            }
            assert(out@ + known_from(cs@, span.2 as int, defined@) =~= before + known_from(
                cs@,
                pos as int,
                defined@,
            ));
            pos = span.2;
        }
    }
    assert(known_from(cs@, pos as int, defined@) =~= Seq::<char>::empty());
    assert(out@ =~= out@ + known_from(cs@, pos as int, defined@));
    out
}

/// What a path becomes from `pos` on with every variable replaced by its value, or the first name
/// isolation does not define.
pub open spec fn strict_from(cs: Seq<char>, pos: int, defined: Map<Seq<char>, String>) -> Result<
    Seq<char>,
    Seq<char>,
>
    decreases cs.len() - pos,
{
    if pos < 0 || pos >= cs.len() {
        Ok(Seq::empty())
    } else {
        let at = dollar_at(cs, pos);
        proof {
            lemma_scans(cs, pos);
        }
        if at >= cs.len() {
            Ok(cs.subrange(pos, cs.len() as int))
        } else {
            let span = name_span(cs, at);
            proof {
                lemma_span(cs, at);
            }
            let name = cs.subrange(span.0, span.1);
            if !defined.contains_key(name) {
                Err(name)
            } else {
                match strict_from(cs, span.2, defined) {
                    Ok(rest) => Ok(cs.subrange(pos, at) + defined[name]@ + rest),
                    Err(missing) => Err(missing),
                }
            }
        }
    }
}

/// The text `expand` scans: the pattern, with a leading `~/` replaced by the home directory, or
/// the name `HOME` when isolation defines none.
pub open spec fn tilde_expanded(pattern: Seq<char>, defined: Map<Seq<char>, String>) -> Result<
    Seq<char>,
    Seq<char>,
> {
    if begins(pattern, "~/"@) {
        if defined.contains_key("HOME"@) {
            Ok(defined["HOME"@]@ + "/"@ + pattern.skip(2))
        } else {
            Err("HOME"@)
        }
    } else {
        Ok(pattern)
    }
}

/// What `expand` gives back: the expansion, or the first name isolation does not define.
pub open spec fn expand_spec(pattern: Seq<char>, defined: Map<Seq<char>, String>) -> Result<
    Seq<char>,
    Seq<char>,
> {
    match tilde_expanded(pattern, defined) {
        Ok(text) => strict_from(text, 0, defined),
        Err(name) => Err(name),
    }
}

/// The error naming `name` as undefined in `pattern`, with every variable that would have worked.
pub open spec fn unknown_error(name: Seq<char>, pattern: Seq<char>, defined: StrMap<String>, e: PathError) -> bool {
    e matches PathError::UnknownVariable { name: n, pattern: p, available } && n@ == name && p@ == pattern
        && available@ == joined(defined.keys(), ", "@)
}

pub(crate) fn available_names(defined: &StrMap<String>) -> (out: String)
    ensures
        out@ == joined(defined.keys(), ", "@),
{
    let pairs = defined.pairs_vec();
    let mut names: Vec<String> = Vec::new();
    let mut i: usize = 0;
    while i < pairs.len()
        invariant
            i <= pairs@.len(),
            pairs@ == defined.pairs(),
            crate::text::views(names@) == defined.keys().take(i as int),
        decreases pairs@.len() - i,
    {
        let ghost before = names@;
        names.push(pairs[i].0.clone());
        assert(crate::text::views(names@) =~= crate::text::views(before).push(pairs@[i as int].0@));
        assert(defined.keys().take(i + 1) =~= defined.keys().take(i as int).push(pairs@[i as int].0@));
        i = i + 1;
    }
    assert(defined.keys().take(defined.keys().len() as int) =~= defined.keys());
    crate::text::join(&names, ", ")
}

/// Expands the variables in `pattern`, refusing any isolation does not define.
///
/// The same bounded, **strict** interpolation as [`substitute`], stopping before the root check:
/// what an environment variable declared by a case needs.
pub fn expand(pattern: &str, defined: &StrMap<String>) -> (r: Result<String, PathError>)
    ensures
        expand_spec(pattern@, defined@) matches Ok(text) ==> (r matches Ok(out) && out@ == text),
        expand_spec(pattern@, defined@) matches Err(name) ==> (r matches Err(e) && unknown_error(
            name,
            pattern@,
            *defined,
            e,
        )),
{
    let text: String = if crate::text::starts_with(pattern, "~/") {
        match defined.get("HOME") {
            Some(home) => {
                let whole = crate::text::chars_of(pattern);
                let mut t = home.clone();
                t.append("/");
                proof {
                    reveal_strlit("~/");
                }
                t.append(slice_string(&whole, 2, whole.len()).as_str());
                assert(whole@.subrange(2, whole@.len() as int) =~= pattern@.skip(2));
                t
            },
            None => {
                return Err(
                    PathError::UnknownVariable {
                        name: String::from_str("HOME"),
                        pattern: String::from_str(pattern),
                        available: available_names(defined),
                    },
                );
            },
        }
    } else {
        String::from_str(pattern)
    };
    let cs = crate::text::chars_of(text.as_str());
    let mut out = String::new();
    let mut pos: usize = 0;
    while pos < cs.len()
        invariant
            pos <= cs.len(),
            cs@ == text@,
            tilde_expanded(pattern@, defined@) == Ok::<Seq<char>, Seq<char>>(text@),
            match strict_from(cs@, pos as int, defined@) {
                Ok(rest) => strict_from(cs@, 0, defined@) == Ok::<Seq<char>, Seq<char>>(out@ + rest),
                Err(name) => strict_from(cs@, 0, defined@) == Err::<Seq<char>, Seq<char>>(name),
            },
        decreases cs.len() - pos,
    {
        let at = scan_dollar(&cs, pos);
        proof {
            lemma_scans(cs@, pos as int);
        }
        if at >= cs.len() {
            let tail = slice_string(&cs, pos, cs.len());
            out.append(tail.as_str());
            assert(strict_from(cs@, cs.len() as int, defined@) == Ok::<Seq<char>, Seq<char>>(
                Seq::empty(),
            ));
            assert(out@ + Seq::<char>::empty() =~= out@);
            pos = cs.len();
        } else {
            let span = scan_span(&cs, at);
            proof {
                lemma_span(cs@, at as int);
            }
            let head = slice_string(&cs, pos, at);
            let name = slice_string(&cs, span.0, span.1);
            match defined.get(name.as_str()) {
                Some(value) => {
                    let ghost before = out@;
                    out.append(head.as_str());
                    out.append(value.as_str());
                    proof {
                        match strict_from(cs@, span.2 as int, defined@) {
                            Ok(rest) => {
                                assert(out@ + rest =~= before + (cs@.subrange(pos as int, at as int)
                                    + defined@[name@]@ + rest));
                            },
                            Err(n) => {},
                        }
                    }
                    pos = span.2;
                },
                None => {
                    return Err(
                        PathError::UnknownVariable {
                            name,
                            pattern: String::from_str(pattern),
                            available: available_names(defined),
                        },
                    );
                },
            }
        }
    }
    assert(strict_from(cs@, pos as int, defined@) == Ok::<Seq<char>, Seq<char>>(Seq::empty()));
    assert(out@ + Seq::<char>::empty() =~= out@);
    Ok(out)
}

/// The components left after walking `parts`: `.` and empty parts are dropped, `..` removes the
/// last component, or `None` once it has nothing left to remove.
pub open spec fn climb(parts: Seq<Seq<char>>) -> Option<Seq<Seq<char>>>
    decreases parts.len(),
{
    if parts.len() == 0 {
        Some(Seq::empty())
    } else {
        match climb(parts.drop_last()) {
            None => None,
            Some(stack) => {
                let part = parts.last();
                if part.len() == 0 || part == "."@ {
                    Some(stack)
                } else if part == ".."@ {
                    if stack.len() == 0 {
                        None
                    } else {
                        Some(stack.drop_last())
                    }
                } else {
                    Some(stack.push(part))
                }
            },
        }
    }
}

/// A path cannot climb out of where it started: what the walk keeps is only ever plain
/// components — never empty, never `.`, never `..`.
pub proof fn law_climb_keeps_plain_components(parts: Seq<Seq<char>>)
    ensures
        climb(parts) matches Some(stack) ==> forall|i: int|
            0 <= i < stack.len() ==> (#[trigger] stack[i]).len() > 0 && stack[i] != "."@ && stack[i] != ".."@,
    decreases parts.len(),
{
    if parts.len() > 0 {
        law_climb_keeps_plain_components(parts.drop_last());
        match climb(parts.drop_last()) {
            None => {},
            Some(stack) => {
                let part = parts.last();
                if part.len() == 0 || part == "."@ {
                } else if part == ".."@ {
                    if stack.len() > 0 {
                        assert forall|i: int| 0 <= i < stack.drop_last().len() implies #[trigger] stack.drop_last()[i] == stack[i] by {}
                    }
                } else {
                    let pushed = stack.push(part);
                    assert forall|i: int| 0 <= i < pushed.len() implies (#[trigger] pushed[i]).len() > 0 && pushed[i]
                        != "."@ && pushed[i] != ".."@ by {
                        if i < stack.len() {
                            assert(pushed[i] == stack[i]);
                        }
                    }
                }
            },
        }
    }
}

/// A command line with no `$` in it is left exactly as written.
pub proof fn law_nothing_to_expand(cs: Seq<char>, pos: int, defined: Map<Seq<char>, String>)
    requires
        0 <= pos <= cs.len(),
        forall|j: int| pos <= j < cs.len() ==> cs[j] != '$',
    ensures
        known_from(cs, pos, defined) == cs.skip(pos),
{
    lemma_scans(cs, pos);
    if pos < cs.len() {
        if dollar_at(cs, pos) < cs.len() {
            assert(cs[dollar_at(cs, pos)] == '$');
        }
        assert(cs.subrange(pos, cs.len() as int) =~= cs.skip(pos));
    } else {
        assert(cs.skip(pos) =~= Seq::<char>::empty());
    }
}

/// A relative path with `.` and `..` resolved, or `None` if it climbs above where it started.
pub open spec fn climbed_spec(path: Seq<char>) -> Option<Seq<char>> {
    match climb(split_on(path, '/')) {
        Some(stack) => Some(joined(stack, "/"@)),
        None => None,
    }
}

fn is_dot(part: &Vec<char>) -> (b: bool)
    ensures
        b == (part@ == "."@),
{
    proof {
        reveal_strlit(".");
    }
    let b = part.len() == 1 && part[0] == '.';
    if b {
        assert(part@ =~= "."@);
    }
    b
}

fn is_dot_dot(part: &Vec<char>) -> (b: bool)
    ensures
        b == (part@ == ".."@),
{
    proof {
        reveal_strlit("..");
    }
    let b = part.len() == 2 && part[0] == '.' && part[1] == '.';
    if b {
        assert(part@ =~= ".."@);
    }
    b
}

/// A relative path with `.` and `..` resolved lexically, or `None` if it climbs above where it
/// started.
pub fn climbed(path: &str) -> (r: Option<String>)
    ensures
        match r {
            Some(p) => climbed_spec(path@) == Some(p@),
            None => climbed_spec(path@) is None,
        },
{
    let cs = crate::text::chars_of(path);
    let parts = crate::text::split_chars(&cs, '/');
    let ghost ps = parts@.map_values(|p: Vec<char>| p@);
    let mut stack: Vec<String> = Vec::new();
    let mut i: usize = 0;
    while i < parts.len()
        invariant
            i <= parts@.len(),
            ps == parts@.map_values(|p: Vec<char>| p@),
            ps == split_on(cs@, '/'),
            cs@ == path@,
            climb(ps.take(i as int)) == Some(crate::text::views(stack@)),
        decreases parts@.len() - i,
    {
        let part = &parts[i];
        assert(ps.take(i + 1).drop_last() =~= ps.take(i as int));
        assert(ps[i as int] == part@);
        if part.len() == 0 || is_dot(part) {
        } else if is_dot_dot(part) {
            if stack.len() == 0 {
                assert(climb(ps.take(i + 1)) is None);
                assert(ps.take(parts@.len() as int) =~= ps);
                proof {
                    lemma_climb_stays_none(ps, i as int + 1);
                    assert(ps == split_on(path@, '/'));
                    assert(climbed_spec(path@) is None);
                }
                return None;
            }
            let ghost before = stack@;
            stack.pop();
            assert(crate::text::views(stack@) =~= crate::text::views(before).drop_last());
        } else {
            let ghost before = stack@;
            let piece = crate::text::string_of(part);
            stack.push(piece);
            assert(crate::text::views(stack@) =~= crate::text::views(before).push(part@));
        }
        i = i + 1;
    }
    assert(ps.take(parts@.len() as int) =~= ps);
    Some(crate::text::join(&stack, "/"))
}

proof fn lemma_climb_stays_none(ps: Seq<Seq<char>>, k: int)
    requires
        0 <= k <= ps.len(),
        climb(ps.take(k)) is None,
    ensures
        climb(ps) is None,
    decreases ps.len() - k,
{
    if k < ps.len() {
        assert(ps.take(k + 1).drop_last() =~= ps.take(k));
        lemma_climb_stays_none(ps, k + 1);
    } else {
        assert(ps.take(k) =~= ps);
    }
}

/// `text` without its leading `/`s.
pub open spec fn without_leading_slashes(text: Seq<char>) -> Seq<char>
    decreases text.len(),
{
    if text.len() > 0 && text[0] == '/' {
        without_leading_slashes(text.drop_first())
    } else {
        text
    }
}

fn strip_leading_slashes(text: &str) -> (out: String)
    ensures
        out@ == without_leading_slashes(text@),
{
    let cs = crate::text::chars_of(text);
    let mut i: usize = 0;
    assert(cs@.skip(0) =~= cs@);
    while i < cs.len() && cs[i] == '/'
        invariant
            i <= cs.len(),
            without_leading_slashes(cs@.skip(i as int)) == without_leading_slashes(cs@),
        decreases cs.len() - i,
    {
        assert(cs@.skip(i as int).drop_first() =~= cs@.skip(i + 1));
        i = i + 1;
    }
    assert(cs@.skip(0) =~= cs@);
    let out = slice_string(&cs, i, cs.len());
    assert(cs@.subrange(i as int, cs.len() as int) =~= cs@.skip(i as int));
    out
}

/// Where a resolved path lands relative to the isolated root, or `None` when it lands outside.
pub open spec fn relative_spec(resolved: Seq<char>, root: Seq<char>) -> Option<Seq<char>> {
    if !begins(resolved, "/"@) {
        climbed_spec(resolved)
    } else if root.len() == 0 {
        None
    } else if !begins(resolved, root) {
        None
    } else {
        climbed_spec(without_leading_slashes(resolved.skip(root.len() as int)))
    }
}

/// Strips the isolated root, so the result lines up with what the tree diff reports. A path that
/// lands outside the root is refused rather than compared.
fn relative_to_root(resolved: &str, root: &str, pattern: &str) -> (r: Result<String, PathError>)
    ensures
        relative_spec(resolved@, root@) matches Some(p) ==> (r matches Ok(out) && out@ == p),
        relative_spec(resolved@, root@) is None ==> (r matches Err(PathError::OutsideRoot { pattern: p, resolved: q }) && p@ == pattern@ && q@ == resolved@),
{
    let outside = PathError::OutsideRoot {
        pattern: String::from_str(pattern),
        resolved: String::from_str(resolved),
    };
    if !crate::text::starts_with(resolved, "/") {
        return match climbed(resolved) {
            Some(p) => Ok(p),
            None => Err(outside),
        };
    }
    let root_chars = crate::text::chars_of(root);
    if root_chars.len() == 0 {
        return Err(outside);
    }
    if !crate::text::starts_with(resolved, root) {
        return Err(outside);
    }
    let whole = crate::text::chars_of(resolved);
    let rest = slice_string(&whole, root_chars.len(), whole.len());
    assert(whole@.subrange(root_chars.len() as int, whole@.len() as int) =~= resolved@.skip(
        root@.len() as int,
    ));
    let inside = strip_leading_slashes(rest.as_str());
    match climbed(inside.as_str()) {
        Some(p) => Ok(p),
        None => Err(outside),
    }
}

/// Where `pattern` lands relative to the isolated root, or why it cannot be resolved.
pub open spec fn substitute_spec(pattern: Seq<char>, defined: Map<Seq<char>, String>) -> Result<
    Seq<char>,
    Seq<char>,
> {
    let root: Seq<char> = if defined.contains_key("HOME"@) { defined["HOME"@]@ } else { Seq::empty() };
    match expand_spec(pattern, defined) {
        Err(name) => Err(name),
        Ok(out) => match relative_spec(out, root) {
            Some(p) => Ok(p),
            None => Err(out),
        },
    }
}

/// Resolves `pattern` to a path **relative to the isolated root**.
///
/// An unknown variable is an **error**, never left literal: `$TYPO` surviving into the resolved path
/// would make an `absent` assertion trivially true.
pub fn substitute(pattern: &str, defined: &StrMap<String>) -> (r: Result<String, PathError>)
    ensures
        expand_spec(pattern@, defined@) matches Err(name) ==> (r matches Err(e) && unknown_error(
            name,
            pattern@,
            *defined,
            e,
        )),
        expand_spec(pattern@, defined@) is Ok ==> (substitute_spec(pattern@, defined@) matches Ok(p) ==> (
        r matches Ok(out) && out@ == p)),
        expand_spec(pattern@, defined@) is Ok ==> (substitute_spec(pattern@, defined@) matches Err(q) ==> (
        r matches Err(PathError::OutsideRoot { pattern: p, resolved }) && p@ == pattern@ && resolved@
            == q)),
{
    let root = match defined.get("HOME") {
        Some(h) => h.clone(),
        None => String::new(),
    };
    let out = expand(pattern, defined)?;
    relative_to_root(out.as_str(), root.as_str(), pattern)
}

} // verus!
