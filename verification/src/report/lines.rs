//! Resolving an assertion path to a line in the case document.
//!
//! **This degrades and never fails.** A path resolving three segments out of five reports the
//! deepest line it reached, and one resolving nothing reports line 1.

use vstd::prelude::*;
use crate::report::html::utf8_len;
use crate::text::{
    begins, leading_space, split_on, trimmed, trimmed_start, white_space,
};

verus! {

// ---------------------------------------------------------------------------------------------
// The document as lines.

/// A line without the carriage return of a `\r\n` ending.
pub open spec fn without_cr(line: Seq<char>) -> Seq<char> {
    if line.len() > 0 && line.last() == '\r' {
        line.drop_last()
    } else {
        line
    }
}

/// The lines of a document, as `str::lines` gives them: split at `\n` or `\r\n`, with no empty
/// line after a final line ending.
pub open spec fn lines_of(doc: Seq<char>) -> Seq<Seq<char>> {
    let pieces = split_on(doc, '\n');
    Seq::new((pieces.len() - 1) as nat, |i: int| without_cr(pieces[i])) + if pieces.last().len() > 0 {
        seq![pieces.last()]
    } else {
        Seq::empty()
    }
}

fn document_lines(doc: &str) -> (lines: Vec<Vec<char>>)
    ensures
        lines@.map_values(|l: Vec<char>| l@) == lines_of(doc@),
{
    let cs = crate::text::chars_of(doc);
    let pieces = crate::text::split_chars(&cs, '\n');
    let ghost ps = pieces@.map_values(|p: Vec<char>| p@);
    proof {
        crate::text::lemma_split_nonempty(cs@, '\n');
    }
    let n = pieces.len();
    let mut lines: Vec<Vec<char>> = Vec::new();
    let mut i: usize = 0;
    while i + 1 < n
        invariant
            n == pieces@.len(),
            n >= 1,
            i + 1 <= n,
            ps == pieces@.map_values(|p: Vec<char>| p@),
            lines@.map_values(|l: Vec<char>| l@) == Seq::new(i as nat, |k: int| without_cr(ps[k])),
        decreases n - i,
    {
        let mut line: Vec<char> = Vec::new();
        let piece = &pieces[i];
        let len = piece.len();
        let keep = if len > 0 && piece[len - 1] == '\r' { len - 1 } else { len };
        let mut k: usize = 0;
        while k < keep
            invariant
                keep <= piece@.len(),
                k <= keep,
                line@ == piece@.take(k as int),
            decreases keep - k,
        {
            line.push(piece[k]);
            assert(line@ =~= piece@.take(k + 1));
            k = k + 1;
        }
        assert(line@ =~= without_cr(ps[i as int]));
        let ghost before = lines@;
        lines.push(line);
        assert(lines@.map_values(|l: Vec<char>| l@) =~= before.map_values(|l: Vec<char>| l@).push(line@));
        assert(lines@.map_values(|l: Vec<char>| l@) =~= Seq::new((i + 1) as nat, |k: int| without_cr(ps[k])));
        i = i + 1;
    }
    let last = &pieces[n - 1];
    if last.len() > 0 {
        let mut copy: Vec<char> = Vec::new();
        let mut k: usize = 0;
        while k < last.len()
            invariant
                k <= last@.len(),
                copy@ == last@.take(k as int),
            decreases last@.len() - k,
        {
            copy.push(last[k]);
            assert(copy@ =~= last@.take(k + 1));
            k = k + 1;
        }
        assert(copy@ =~= last@);
        lines.push(copy);
    }
    assert(lines@.map_values(|l: Vec<char>| l@) =~= lines_of(doc@));
    lines
}

/// How far a line is indented, in bytes (saturating at the largest `usize`).
pub open spec fn indentation(text: Seq<char>) -> nat {
    crate::report::capped(utf8_len(text.take(leading_space(text) as int)), usize::MAX as nat)
}

/// Whether `text` opens with a dash and a space.
pub open spec fn dash_space(text: Seq<char>) -> bool {
    text.len() >= 2 && text[0] == '-' && text[1] == ' '
}

/// `text` with every leading `- ` removed.
pub open spec fn without_dashes(text: Seq<char>) -> Seq<char>
    decreases text.len(),
{
    if dash_space(text) {
        without_dashes(text.skip(2))
    } else {
        text
    }
}

/// What a line says once its indentation is set aside: its bare text and how deep it sits.
fn measured(line: &Vec<char>) -> (r: (Vec<char>, usize))
    ensures
        r.0@ == trimmed_start(line@),
        r.1 as nat == indentation(line@),
{
    let mut a: usize = 0;
    let mut bytes: usize = 0;
    while a < line.len() && crate::text::is_white_space(line[a])
        invariant
            a <= line@.len(),
            forall|j: int| 0 <= j < a ==> white_space(line@[j]),
            bytes as nat == crate::report::capped(utf8_len(line@.take(a as int)), usize::MAX as nat),
        decreases line@.len() - a,
    {
        let code = line[a] as u32;
        let width: usize = if code < 0x80 {
            1
        } else if code < 0x800 {
            2
        } else if code < 0x10000 {
            3
        } else {
            4
        };
        assert(line@.take(a + 1).drop_last() =~= line@.take(a as int));
        bytes = bytes.saturating_add(width);
        a = a + 1;
    }
    proof {
        lemma_leading(line@, a as int);
    }
    let mut bare: Vec<char> = Vec::new();
    let mut i = a;
    while i < line.len()
        invariant
            a <= i <= line@.len(),
            bare@ == line@.subrange(a as int, i as int),
        decreases line@.len() - i,
    {
        bare.push(line[i]);
        assert(bare@ =~= line@.subrange(a as int, i + 1));
        i = i + 1;
    }
    assert(bare@ =~= trimmed_start(line@));
    (bare, bytes)
}

proof fn lemma_leading(text: Seq<char>, i: int)
    requires
        0 <= i <= text.len(),
        forall|j: int| 0 <= j < i ==> white_space(text[j]),
        i == text.len() || !white_space(text[i]),
    ensures
        leading_space(text) == i,
    decreases i,
{
    if i > 0 {
        lemma_leading(text.drop_first(), i - 1);
    }
}

fn strip_dashes(text: &Vec<char>) -> (out: Vec<char>)
    ensures
        out@ == without_dashes(text@),
{
    let mut at: usize = 0;
    assert(text@.skip(0) =~= text@);
    while at < text.len() && text.len() - at >= 2 && text[at] == '-' && text[at + 1] == ' '
        invariant
            at <= text@.len(),
            without_dashes(text@.skip(at as int)) == without_dashes(text@),
        decreases text@.len() - at,
    {
        assert(text@.skip(at as int).skip(2) =~= text@.skip(at + 2));
        at = at + 2;
    }
    let mut out: Vec<char> = Vec::new();
    let mut i = at;
    while i < text.len()
        invariant
            at <= i <= text@.len(),
            out@ == text@.subrange(at as int, i as int),
        decreases text@.len() - i,
    {
        out.push(text[i]);
        assert(out@ =~= text@.subrange(at as int, i + 1));
        i = i + 1;
    }
    assert(out@ =~= text@.skip(at as int));
    out
}

// ---------------------------------------------------------------------------------------------
// Finding a key, or the nth element of a sequence.

/// Whether a line's bare text opens with `key:`, quoted or not, past any leading `- `.
pub open spec fn names_key(bare: Seq<char>, key: Seq<char>) -> bool {
    let candidate = without_dashes(bare);
    begins(candidate, key + ":"@) || begins(candidate, "\""@ + key + "\":"@) || begins(
        candidate,
        "'"@ + key + "':"@,
    )
}

/// The line where `key:` appears, looking from `offset` on, deeper than `indent` once past the
/// top: its 1-indexed number and its indentation.
pub open spec fn key_line_from(
    lines: Seq<Seq<char>>,
    key: Seq<char>,
    from: int,
    indent: nat,
    offset: int,
) -> Option<(int, nat)>
    decreases lines.len() - offset,
{
    if offset < 0 || offset >= lines.len() {
        None
    } else {
        let text = lines[offset];
        let at = indentation(text);
        let bare = trimmed_start(text);
        if bare.len() == 0 || bare[0] == '#' {
            key_line_from(lines, key, from, indent, offset + 1)
        } else if from > 0 && at <= indent && bare[0] != '-' {
            None
        } else if names_key(bare, key) {
            Some((offset + 1, at))
        } else {
            key_line_from(lines, key, from, indent, offset + 1)
        }
    }
}

/// The line of the `nth` sequence element, looking from `offset` on, having passed `seen` of them.
pub open spec fn nth_from(
    lines: Seq<Seq<char>>,
    nth: nat,
    from: int,
    indent: nat,
    offset: int,
    seen: nat,
) -> Option<(int, nat)>
    decreases lines.len() - offset,
{
    if offset < 0 || offset >= lines.len() {
        None
    } else {
        let text = lines[offset];
        let at = indentation(text);
        let bare = trimmed_start(text);
        if bare.len() == 0 || bare[0] == '#' {
            nth_from(lines, nth, from, indent, offset + 1, seen)
        } else if bare[0] != '-' {
            if at <= indent && from > 0 && offset + 1 > from {
                None
            } else {
                nth_from(lines, nth, from, indent, offset + 1, seen)
            }
        } else if seen == nth {
            Some((offset + 1, at))
        } else {
            nth_from(lines, nth, from, indent, offset + 1, seen + 1)
        }
    }
}

fn key_line(lines: &Vec<Vec<char>>, key: &Vec<char>, from: usize, indent: usize) -> (r: Option<(usize, usize)>)
    ensures
        match r {
            Some((l, a)) => key_line_from(lines@.map_values(|x: Vec<char>| x@), key@, from as int, indent as nat, from as int) == Some((l as int, a as nat)),
            None => key_line_from(lines@.map_values(|x: Vec<char>| x@), key@, from as int, indent as nat, from as int) is None,
        },
{
    let ghost ls = lines@.map_values(|x: Vec<char>| x@);
    let mut plain: Vec<char> = key.clone();
    plain.push(':');
    let mut double: Vec<char> = Vec::new();
    double.push('"');
    let mut k: usize = 0;
    while k < key.len()
        invariant
            k <= key@.len(),
            double@ == seq!['"'] + key@.take(k as int),
        decreases key@.len() - k,
    {
        double.push(key[k]);
        assert(double@ =~= seq!['"'] + key@.take(k + 1));
        k = k + 1;
    }
    double.push('"');
    double.push(':');
    let mut single: Vec<char> = Vec::new();
    single.push('\'');
    let mut k: usize = 0;
    while k < key.len()
        invariant
            k <= key@.len(),
            single@ == seq!['\''] + key@.take(k as int),
        decreases key@.len() - k,
    {
        single.push(key[k]);
        assert(single@ =~= seq!['\''] + key@.take(k + 1));
        k = k + 1;
    }
    single.push('\'');
    single.push(':');
    proof {
        reveal_strlit(":");
        reveal_strlit("\"");
        reveal_strlit("\":");
        reveal_strlit("'");
        reveal_strlit("':");
        assert(key@.take(key@.len() as int) =~= key@);
        assert(plain@ =~= key@ + ":"@);
        assert(double@ =~= "\""@ + key@ + "\":"@);
        assert(single@ =~= "'"@ + key@ + "':"@);
    }
    let mut offset = from;
    while offset < lines.len()
        invariant
            ls == lines@.map_values(|x: Vec<char>| x@),
            from <= offset,
            plain@ == key@ + ":"@,
            double@ == "\""@ + key@ + "\":"@,
            single@ == "'"@ + key@ + "':"@,
            key_line_from(ls, key@, from as int, indent as nat, offset as int) == key_line_from(
                ls,
                key@,
                from as int,
                indent as nat,
                from as int,
            ),
        decreases lines@.len() - offset,
    {
        let (bare, at) = measured(&lines[offset]);
        assert(ls[offset as int] == lines@[offset as int]@);
        if bare.len() == 0 || bare[0] == '#' {
            offset = offset + 1;
            continue;
        }
        if from > 0 && at <= indent && bare[0] != '-' {
            return None;
        }
        let candidate = strip_dashes(&bare);
        if crate::text::matches_at(&candidate, &plain, 0) || crate::text::matches_at(&candidate, &double, 0)
            || crate::text::matches_at(&candidate, &single, 0) {
            return Some((offset + 1, at));
        }
        offset = offset + 1;
    }
    None
}

fn nth_element(lines: &Vec<Vec<char>>, nth: usize, from: usize, indent: usize) -> (r: Option<(usize, usize)>)
    ensures
        match r {
            Some((l, a)) => nth_from(lines@.map_values(|x: Vec<char>| x@), nth as nat, from as int, indent as nat, from as int, 0) == Some((l as int, a as nat)),
            None => nth_from(lines@.map_values(|x: Vec<char>| x@), nth as nat, from as int, indent as nat, from as int, 0) is None,
        },
{
    let ghost ls = lines@.map_values(|x: Vec<char>| x@);
    let mut seen: usize = 0;
    let mut offset = from;
    while offset < lines.len()
        invariant
            ls == lines@.map_values(|x: Vec<char>| x@),
            from <= offset,
            seen <= offset - from,
            seen <= nth,
            nth_from(ls, nth as nat, from as int, indent as nat, offset as int, seen as nat) == nth_from(
                ls,
                nth as nat,
                from as int,
                indent as nat,
                from as int,
                0,
            ),
        decreases lines@.len() - offset,
    {
        let (bare, at) = measured(&lines[offset]);
        assert(ls[offset as int] == lines@[offset as int]@);
        if bare.len() == 0 || bare[0] == '#' {
            offset = offset + 1;
            continue;
        }
        if bare[0] != '-' {
            if at <= indent && from > 0 && offset + 1 > from {
                return None;
            }
            offset = offset + 1;
            continue;
        }
        if seen == nth {
            return Some((offset + 1, at));
        }
        seen = seen + 1;
        offset = offset + 1;
    }
    None
}

// ---------------------------------------------------------------------------------------------
// The path, as the steps to follow.

/// One step of an assertion path, as the model sees it.
pub enum SegmentModel {
    /// A mapping key, taken whole — it may contain dots.
    Key(Seq<char>),
    /// The nth element of the sequence under the preceding key, 0-indexed.
    Nth(nat),
}

/// One step of an assertion path.
#[derive(Debug)]
pub enum Segment {
    /// A mapping key, taken whole — it may contain dots, as `data.order.id` does.
    Key(Vec<char>),
    /// The nth element of the sequence under the preceding key, 0-indexed.
    Nth(usize),
}

impl Segment {
    /// What this step says.
    pub open spec fn model(&self) -> SegmentModel {
        match self {
            Segment::Key(k) => SegmentModel::Key(k@),
            Segment::Nth(n) => SegmentModel::Nth(*n as nat),
        }
    }
}

/// The first position of `c` in `text`, if any.
pub open spec fn index_of_char(text: Seq<char>, c: char) -> Option<int>
    decreases text.len(),
{
    if text.len() == 0 {
        None
    } else if text[0] == c {
        Some(0)
    } else {
        match index_of_char(text.drop_first(), c) {
            Some(i) => Some(i + 1),
            None => None,
        }
    }
}

/// `text` without any leading `c`.
pub open spec fn without_leading(text: Seq<char>, c: char) -> Seq<char>
    decreases text.len(),
{
    if text.len() > 0 && text[0] == c {
        without_leading(text.drop_first(), c)
    } else {
        text
    }
}

/// `text` without any trailing `c`.
pub open spec fn without_trailing(text: Seq<char>, c: char) -> Seq<char>
    decreases text.len(),
{
    if text.len() > 0 && text.last() == c {
        without_trailing(text.drop_last(), c)
    } else {
        text
    }
}

/// Whether `c` is an ASCII digit.
pub open spec fn is_digit(c: char) -> bool {
    '0' <= c && c <= '9'
}

/// The value of a run of ASCII digits.
pub open spec fn digits_value(digits: Seq<char>) -> nat
    decreases digits.len(),
{
    if digits.len() == 0 {
        0
    } else {
        digits_value(digits.drop_last()) * 10 + ((digits.last() as u32) - ('0' as u32)) as nat
    }
}

/// The text after an optional leading `+`.
pub open spec fn unsigned_digits(text: Seq<char>) -> Seq<char> {
    if text.len() > 0 && text[0] == '+' { text.drop_first() } else { text }
}

/// Whether every character of `text` is an ASCII digit.
pub open spec fn all_digits(text: Seq<char>) -> bool {
    forall|i: int| 0 <= i < text.len() ==> is_digit(#[trigger] text[i])
}

/// `text` read as a `usize` the way `str::parse` reads one: an optional `+`, then at least one
/// ASCII digit and nothing else, with a value that fits.
pub open spec fn parsed_index(text: Seq<char>) -> Option<nat> {
    let digits = unsigned_digits(text);
    if digits.len() == 0 || !all_digits(digits) {
        None
    } else if digits_value(digits) > usize::MAX {
        None
    } else {
        Some(digits_value(digits))
    }
}

/// A dotted run as one key, when anything is left of it.
pub open spec fn dotted(run: Seq<char>) -> Seq<SegmentModel> {
    let key = without_leading(run, '.');
    if key.len() > 0 {
        seq![SegmentModel::Key(key)]
    } else {
        Seq::empty()
    }
}

/// What follows a bracket, without the human-facing `"name"` a step path carries after its index.
pub open spec fn after_name(tail: Seq<char>) -> Seq<char> {
    let t = trimmed_start(tail);
    if t.len() > 0 && t[0] == '"' {
        let after = t.drop_first();
        match index_of_char(after, '"') {
            Some(q) => after.skip(q + 1),
            None => Seq::empty(),
        }
    } else {
        t
    }
}

/// The first position of a character is where it is, and it appears nowhere before.
pub proof fn lemma_index_of_char(text: Seq<char>, c: char)
    ensures
        index_of_char(text, c) matches Some(i) ==> 0 <= i < text.len() && text[i] == c && forall|j: int|
            0 <= j < i ==> text[j] != c,
        index_of_char(text, c) is None ==> forall|j: int| 0 <= j < text.len() ==> text[j] != c,
    decreases text.len(),
{
    if text.len() > 0 {
        lemma_index_of_char(text.drop_first(), c);
        if text[0] != c {
            assert forall|j: int| 1 <= j < text.len() implies text[j] == text.drop_first()[j - 1] by {}
        }
    }
}

/// Dropping a step's quoted name never lengthens what follows.
pub proof fn lemma_after_name_shorter(tail: Seq<char>)
    ensures
        after_name(tail).len() <= tail.len(),
{
    crate::text::lemma_trimmed_start_len(tail);
    let t = trimmed_start(tail);
    if t.len() > 0 && t[0] == '"' {
        lemma_index_of_char(t.drop_first(), '"');
    }
}

/// The steps of a path: keys taken whole, bracketed keys taken whole, indices as indices, and the
/// quoted names of steps dropped.
pub open spec fn segments_of(rest: Seq<char>) -> Seq<SegmentModel>
    decreases rest.len(),
{
    if rest.len() == 0 {
        Seq::empty()
    } else {
        match index_of_char(rest, '[') {
            Some(b) => {
                let before = rest.take(b);
                let after = rest.skip(b + 1);
                let inside = match index_of_char(after, ']') {
                    Some(e) => after.take(e),
                    None => after,
                };
                let tail = match index_of_char(after, ']') {
                    Some(e) => after.skip(e + 1),
                    None => Seq::empty(),
                };
                let step = match parsed_index(trimmed(inside)) {
                    Some(n) => SegmentModel::Nth(n),
                    None => SegmentModel::Key(without_trailing(without_leading(inside, '"'), '"')),
                };
                proof {
                    lemma_index_of_char(rest, '[');
                    lemma_index_of_char(after, ']');
                    lemma_after_name_shorter(tail);
                }
                dotted(before) + seq![step] + segments_of(after_name(tail))
            },
            None => dotted(rest),
        }
    }
}


fn index_of(text: &Vec<char>, c: char) -> (r: Option<usize>)
    ensures
        match r {
            Some(i) => index_of_char(text@, c) == Some(i as int),
            None => index_of_char(text@, c) is None,
        },
{
    proof {
        lemma_index_of_char(text@, c);
    }
    let mut i: usize = 0;
    while i < text.len()
        invariant
            i <= text@.len(),
            forall|j: int| 0 <= j < i ==> text@[j] != c,
        decreases text@.len() - i,
    {
        if text[i] == c {
            proof {
                lemma_first_is_index(text@, c, i as int);
            }
            return Some(i);
        }
        i = i + 1;
    }
    proof {
        lemma_none_is_index(text@, c);
    }
    None
}

/// The first position where a character sits is what `index_of_char` finds.
pub proof fn lemma_first_is_index(text: Seq<char>, c: char, i: int)
    requires
        0 <= i < text.len(),
        text[i] == c,
        forall|j: int| 0 <= j < i ==> text[j] != c,
    ensures
        index_of_char(text, c) == Some(i),
    decreases i,
{
    if i > 0 {
        lemma_first_is_index(text.drop_first(), c, i - 1);
    }
}

/// A character that sits nowhere is found nowhere.
pub proof fn lemma_none_is_index(text: Seq<char>, c: char)
    requires
        forall|j: int| 0 <= j < text.len() ==> text[j] != c,
    ensures
        index_of_char(text, c) is None,
    decreases text.len(),
{
    if text.len() > 0 {
        lemma_none_is_index(text.drop_first(), c);
    }
}

fn slice_of(text: &Vec<char>, from: usize, to: usize) -> (out: Vec<char>)
    requires
        from <= to <= text@.len(),
    ensures
        out@ == text@.subrange(from as int, to as int),
{
    let mut out: Vec<char> = Vec::new();
    let mut i = from;
    while i < to
        invariant
            from <= i <= to <= text@.len(),
            out@ == text@.subrange(from as int, i as int),
        decreases to - i,
    {
        out.push(text[i]);
        assert(out@ =~= text@.subrange(from as int, i + 1));
        i = i + 1;
    }
    out
}

fn strip_leading(text: &Vec<char>, c: char) -> (out: Vec<char>)
    ensures
        out@ == without_leading(text@, c),
{
    let mut a: usize = 0;
    assert(text@.skip(0) =~= text@);
    while a < text.len() && text[a] == c
        invariant
            a <= text@.len(),
            without_leading(text@.skip(a as int), c) == without_leading(text@, c),
        decreases text@.len() - a,
    {
        assert(text@.skip(a as int).drop_first() =~= text@.skip(a + 1));
        a = a + 1;
    }
    let out = slice_of(text, a, text.len());
    assert(out@ =~= text@.skip(a as int));
    out
}

fn strip_trailing(text: &Vec<char>, c: char) -> (out: Vec<char>)
    ensures
        out@ == without_trailing(text@, c),
{
    let mut b: usize = text.len();
    assert(text@.take(b as int) =~= text@);
    while b > 0 && text[b - 1] == c
        invariant
            b <= text@.len(),
            without_trailing(text@.take(b as int), c) == without_trailing(text@, c),
        decreases b,
    {
        assert(text@.take(b as int).drop_last() =~= text@.take(b - 1));
        b = b - 1;
    }
    let out = slice_of(text, 0, b);
    assert(out@ =~= text@.take(b as int));
    out
}

proof fn lemma_digits_step(digits: Seq<char>, i: int)
    requires
        0 <= i < digits.len(),
    ensures
        digits_value(digits.take(i + 1)) == digits_value(digits.take(i)) * 10 + ((digits[i] as u32) - ('0' as u32)) as nat,
{
    assert(digits.take(i + 1).drop_last() =~= digits.take(i));
}

/// `text` read as a `usize` the way `str::parse` reads one.
pub fn parse_index(text: &Vec<char>) -> (r: Option<usize>)
    ensures
        match r {
            Some(n) => parsed_index(text@) == Some(n as nat),
            None => parsed_index(text@) is None,
        },
{
    let start: usize = if text.len() > 0 && text[0] == '+' { 1 } else { 0 };
    let ghost digits = if text@.len() > 0 && text@[0] == '+' { text@.drop_first() } else { text@ };
    assert(digits =~= text@.skip(start as int));
    if start >= text.len() {
        return None;
    }
    let mut value: usize = 0;
    let mut i = start;
    while i < text.len()
        invariant
            start <= i <= text@.len(),
            digits == text@.skip(start as int),
            digits == unsigned_digits(text@),
            digits.len() > 0,
            forall|j: int| 0 <= j < i - start ==> is_digit(#[trigger] digits[j]),
            value as nat == digits_value(digits.take(i - start)),
        decreases text@.len() - i,
    {
        let c = text[i];
        if !('0' <= c && c <= '9') {
            assert(digits[i - start] == c);
            assert(!is_digit(digits[i - start]));
            proof {
                lemma_non_digit(text@, digits, i - start);
            }
            return None;
        }
        let d = (c as u32 - '0' as u32) as usize;
        proof {
            lemma_digits_step(digits, i - start);
            lemma_digits_grow(digits, (i - start + 1) as int);
        }
        if value > (usize::MAX - d) / 10 {
            proof {
                assert(value * 10 + d > usize::MAX) by (nonlinear_arith)
                    requires
                        value > (usize::MAX - d) / 10,
                        d <= 9,
                ;
                lemma_digits_prefix_bound(digits, (i - start + 1) as int);
                assert(digits[i - start] == c);
                if all_digits(digits) {
                    assert(digits_value(digits) > usize::MAX);
                }
                assert(parsed_index(text@) is None);
            }
            return None;
        }
        proof {
            assert(value * 10 + d <= usize::MAX) by (nonlinear_arith)
                requires
                    value <= (usize::MAX - d) / 10,
                    d <= 9,
            ;
        }
        value = value * 10 + d;
        i = i + 1;
    }
    assert(digits.take(digits.len() as int) =~= digits);
    Some(value)
}

proof fn lemma_non_digit(text: Seq<char>, digits: Seq<char>, k: int)
    requires
        digits == unsigned_digits(text),
        0 <= k < digits.len(),
        !is_digit(digits[k]),
    ensures
        parsed_index(text) is None,
{
    assert(!all_digits(digits));
}

proof fn lemma_digits_grow(digits: Seq<char>, k: int)
    requires
        0 <= k <= digits.len(),
    ensures
        digits_value(digits.take(k)) <= digits_value(digits),
    decreases digits.len() - k,
{
    if k < digits.len() {
        lemma_digits_grow(digits, k + 1);
        lemma_digits_step(digits, k);
    } else {
        assert(digits.take(k) =~= digits);
    }
}

proof fn lemma_digits_prefix_bound(digits: Seq<char>, k: int)
    requires
        0 <= k <= digits.len(),
    ensures
        digits_value(digits.take(k)) <= digits_value(digits),
{
    lemma_digits_grow(digits, k);
}

/// What a line without its leading white space is, as characters.
fn trimmed_chars(text: &Vec<char>) -> (out: Vec<char>)
    ensures
        out@ == trimmed(text@),
{
    let s = crate::text::string_of(text);
    let t = crate::text::trim(s.as_str());
    crate::text::chars_of(t.as_str())
}

fn after_name_of(tail: &Vec<char>) -> (out: Vec<char>)
    ensures
        out@ == after_name(tail@),
{
    let (t, _) = measured(tail);
    if t.len() > 0 && t[0] == '"' {
        let after = slice_of(&t, 1, t.len());
        assert(after@ =~= t@.drop_first());
        match index_of(&after, '"') {
            Some(q) => {
                proof {
                    lemma_index_of_char(after@, '"');
                }
                let out = slice_of(&after, q + 1, after.len());
                assert(out@ =~= after@.skip(q + 1));
                out
            },
            None => Vec::new(),
        }
    } else {
        t
    }
}

fn push_dotted(run: &Vec<char>, out: &mut Vec<Segment>)
    ensures
        final(out)@.map_values(|s: Segment| s.model()) == old(out)@.map_values(|s: Segment| s.model())
            + dotted(run@),
{
    let key = strip_leading(run, '.');
    if key.len() > 0 {
        let ghost before = out@;
        out.push(Segment::Key(key));
        assert(out@.map_values(|s: Segment| s.model()) =~= before.map_values(|s: Segment| s.model())
            + dotted(run@));
    } else {
        assert(out@.map_values(|s: Segment| s.model()) =~= out@.map_values(|s: Segment| s.model())
            + dotted(run@));
    }
}

/// Splits a path into the steps to follow.
fn segments(rest: &Vec<char>) -> (out: Vec<Segment>)
    ensures
        out@.map_values(|s: Segment| s.model()) == segments_of(rest@),
    decreases rest@.len(),
{
    let mut out: Vec<Segment> = Vec::new();
    if rest.len() == 0 {
        assert(out@.map_values(|s: Segment| s.model()) =~= segments_of(rest@));
        return out;
    }
    proof {
        lemma_index_of_char(rest@, '[');
    }
    match index_of(rest, '[') {
        Some(b) => {
            let before = slice_of(rest, 0, b);
            let after = slice_of(rest, b + 1, rest.len());
            assert(before@ =~= rest@.take(b as int));
            assert(after@ =~= rest@.skip(b + 1));
            proof {
                lemma_index_of_char(after@, ']');
            }
            let (inside, tail) = match index_of(&after, ']') {
                Some(e) => {
                    let i = slice_of(&after, 0, e);
                    let t = slice_of(&after, e + 1, after.len());
                    assert(i@ =~= after@.take(e as int));
                    assert(t@ =~= after@.skip(e + 1));
                    (i, t)
                },
                None => (after.clone(), Vec::new()),
            };
            assert(inside@ == match index_of_char(after@, ']') {
                Some(e) => after@.take(e),
                None => after@,
            });
            assert(tail@ =~= match index_of_char(after@, ']') {
                Some(e) => after@.skip(e + 1),
                None => Seq::<char>::empty(),
            });
            push_dotted(&before, &mut out);
            let trimmed_inside = trimmed_chars(&inside);
            let step = match parse_index(&trimmed_inside) {
                Some(n) => Segment::Nth(n),
                None => {
                    let unquoted = strip_leading(&inside, '"');
                    Segment::Key(strip_trailing(&unquoted, '"'))
                },
            };
            let ghost mid = out@;
            out.push(step);
            let next = after_name_of(&tail);
            proof {
                lemma_after_name_shorter(tail@);
            }
            let mut more = segments(&next);
            let ghost added = more@;
            out.append(&mut more);
            assert(out@.map_values(|s: Segment| s.model()) =~= mid.map_values(|s: Segment| s.model()).push(
                step.model(),
            ) + added.map_values(|s: Segment| s.model()));
            out
        },
        None => {
            push_dotted(rest, &mut out);
            out
        },
    }
}


// ---------------------------------------------------------------------------------------------
// Following the path.

/// The last position of a `.` in `text`, if any.
pub open spec fn last_dot(text: Seq<char>) -> Option<int>
    decreases text.len(),
{
    if text.len() == 0 {
        None
    } else if text.last() == '.' {
        Some(text.len() - 1)
    } else {
        last_dot(text.drop_last())
    }
}

/// The last dot is inside the text, and it is a dot.
pub proof fn lemma_last_dot(text: Seq<char>)
    ensures
        last_dot(text) matches Some(d) ==> 0 <= d < text.len() && text[d] == '.',
    decreases text.len(),
{
    if text.len() > 0 && text.last() != '.' {
        lemma_last_dot(text.drop_last());
    }
}

/// How far a segment got: the line it landed on, that line's indentation, and whether the whole
/// segment resolved.
pub type Reached = (int, nat, bool);

/// Finds the first `k` characters of `key` as a key, then shorter dotted heads — longest first. A
/// head that resolves with a remainder goes on to resolve the remainder under it; a remainder that
/// fails does not undo what was reached, and is reported as incomplete.
pub open spec fn longest_from(lines: Seq<Seq<char>>, key: Seq<char>, k: int, from: int, indent: nat) -> Option<Reached>
    decreases key.len(), k,
{
    if k < 0 || k > key.len() {
        None
    } else {
        let attempt = key.take(k);
        match key_line_from(lines, attempt, from, indent, from) {
            Some((line, at)) => {
                let rest = without_leading(key.skip(k), '.');
                if rest.len() == 0 {
                    Some((line, at, true))
                } else if rest.len() >= key.len() {
                    Some((line, at, false))
                } else {
                    match longest_from(lines, rest, rest.len() as int, line, at) {
                        Some(r) => Some(r),
                        None => Some((line, at, false)),
                    }
                }
            },
            None => {
                proof {
                    lemma_last_dot(attempt);
                }
                match last_dot(attempt) {
                    Some(d) => longest_from(lines, key, d, from, indent),
                    None => None,
                }
            },
        }
    }
}

/// Where one segment lands, searching after `from` and deeper than `indent`.
pub open spec fn find_spec(lines: Seq<Seq<char>>, seg: SegmentModel, from: int, indent: nat) -> Option<Reached> {
    match seg {
        SegmentModel::Key(key) => longest_from(lines, key, key.len() as int, from, indent),
        SegmentModel::Nth(n) => match nth_from(lines, n, from, indent, from, 0) {
            Some((line, at)) => Some((line, at, true)),
            None => None,
        },
    }
}

/// Follows `segs` from the `i`th on: the deepest line reached when a segment stops resolving.
pub open spec fn walk(lines: Seq<Seq<char>>, segs: Seq<SegmentModel>, i: int, deepest: int, from: int, indent: nat) -> int
    decreases segs.len() - i,
{
    if i < 0 || i >= segs.len() {
        deepest
    } else {
        match find_spec(lines, segs[i], from, indent) {
            None => deepest,
            Some((line, at, complete)) => if !complete {
                line
            } else {
                walk(lines, segs, i + 1, line, line, at)
            },
        }
    }
}

/// The 1-indexed line `path` points at in `doc`, as best it can be found.
pub open spec fn locate_spec(doc: Seq<char>, path: Seq<char>) -> int {
    walk(lines_of(doc), segments_of(path), 0, 1, 0, 0)
}

fn last_dot_of(text: &Vec<char>, k: usize) -> (r: Option<usize>)
    requires
        k <= text@.len(),
    ensures
        match r {
            Some(d) => last_dot(text@.take(k as int)) == Some(d as int),
            None => last_dot(text@.take(k as int)) is None,
        },
{
    let mut j = k;
    while j > 0
        invariant
            j <= k <= text@.len(),
            last_dot(text@.take(j as int)) == last_dot(text@.take(k as int)),
        decreases j,
    {
        assert(text@.take(j as int).last() == text@[j - 1]);
        if text[j - 1] == '.' {
            return Some(j - 1);
        }
        assert(text@.take(j as int).drop_last() =~= text@.take(j - 1));
        j = j - 1;
    }
    None
}

fn longest(lines: &Vec<Vec<char>>, key: &Vec<char>, k: usize, from: usize, indent: usize) -> (r: Option<(usize, usize, bool)>)
    requires
        k <= key@.len(),
        from <= lines@.len(),
    ensures
        match r {
            Some((l, a, c)) => longest_from(lines@.map_values(|x: Vec<char>| x@), key@, k as int, from as int, indent as nat) == Some((l as int, a as nat, c)) && l <= lines@.len(),
            None => longest_from(lines@.map_values(|x: Vec<char>| x@), key@, k as int, from as int, indent as nat) is None,
        },
    decreases key@.len(), k,
{
    let attempt = slice_of(key, 0, k);
    assert(attempt@ =~= key@.take(k as int));
    match key_line(lines, &attempt, from, indent) {
        Some((line, at)) => {
            proof {
                lemma_key_line_bound(lines@.map_values(|x: Vec<char>| x@), attempt@, from as int, indent as nat, from as int);
            }
            let tail = slice_of(key, k, key.len());
            assert(tail@ =~= key@.skip(k as int));
            let rest = strip_leading(&tail, '.');
            if rest.len() == 0 {
                Some((line, at, true))
            } else if rest.len() >= key.len() {
                Some((line, at, false))
            } else {
                match longest(lines, &rest, rest.len(), line, at) {
                    Some(r) => Some(r),
                    None => Some((line, at, false)),
                }
            }
        },
        None => {
            proof {
                lemma_last_dot(attempt@);
            }
            match last_dot_of(key, k) {
                Some(d) => longest(lines, key, d, from, indent),
                None => None,
            }
        },
    }
}

proof fn lemma_key_line_bound(lines: Seq<Seq<char>>, key: Seq<char>, from: int, indent: nat, offset: int)
    ensures
        key_line_from(lines, key, from, indent, offset) matches Some((l, a)) ==> 1 <= l <= lines.len(),
    decreases lines.len() - offset,
{
    if 0 <= offset < lines.len() {
        lemma_key_line_bound(lines, key, from, indent, offset + 1);
    }
}

proof fn lemma_nth_bound(lines: Seq<Seq<char>>, nth: nat, from: int, indent: nat, offset: int, seen: nat)
    ensures
        nth_from(lines, nth, from, indent, offset, seen) matches Some((l, a)) ==> 1 <= l <= lines.len(),
    decreases lines.len() - offset,
{
    if 0 <= offset < lines.len() {
        lemma_nth_bound(lines, nth, from, indent, offset + 1, seen);
        lemma_nth_bound(lines, nth, from, indent, offset + 1, seen + 1);
    }
}

fn find(lines: &Vec<Vec<char>>, seg: &Segment, from: usize, indent: usize) -> (r: Option<(usize, usize, bool)>)
    requires
        from <= lines@.len(),
    ensures
        match r {
            Some((l, a, c)) => find_spec(lines@.map_values(|x: Vec<char>| x@), seg.model(), from as int, indent as nat) == Some((l as int, a as nat, c)) && l <= lines@.len(),
            None => find_spec(lines@.map_values(|x: Vec<char>| x@), seg.model(), from as int, indent as nat) is None,
        },
{
    match seg {
        Segment::Key(key) => longest(lines, key, key.len(), from, indent),
        Segment::Nth(n) => {
            proof {
                lemma_nth_bound(lines@.map_values(|x: Vec<char>| x@), *n as nat, from as int, indent as nat, from as int, 0);
            }
            match nth_element(lines, *n, from, indent) {
                Some((line, at)) => Some((line, at, true)),
                None => None,
            }
        },
    }
}

/// The 1-indexed line `path` points at in `document`, as best it can be found.
///
/// A segment that only got part of the way stops the walk: applying the rest of the path anyway
/// would land on a confidently wrong line rather than an honestly approximate one.
pub fn locate(document: &str, path: &str) -> (line: usize)
    ensures
        line as int == locate_spec(document@, path@),
{
    let lines = document_lines(document);
    let ghost ls = lines@.map_values(|x: Vec<char>| x@);
    let path_chars = crate::text::chars_of(path);
    let segs = segments(&path_chars);
    let ghost sm = segs@.map_values(|s: Segment| s.model());
    let mut deepest: usize = 1;
    let mut from: usize = 0;
    let mut indent: usize = 0;
    let mut i: usize = 0;
    while i < segs.len()
        invariant
            i <= segs@.len(),
            ls == lines@.map_values(|x: Vec<char>| x@),
            sm == segs@.map_values(|s: Segment| s.model()),
            ls == lines_of(document@),
            sm == segments_of(path_chars@),
            path_chars@ == path@,
            from <= lines@.len(),
            walk(ls, sm, i as int, deepest as int, from as int, indent as nat) == walk(ls, sm, 0, 1, 0, 0),
        decreases segs@.len() - i,
    {
        assert(sm[i as int] == segs@[i as int].model());
        match find(&lines, &segs[i], from, indent) {
            None => {
                return deepest;
            },
            Some((reached, at, complete)) => {
                if !complete {
                    return reached;
                }
                deepest = reached;
                from = reached;
                indent = at;
            },
        }
        i = i + 1;
    }
    deepest
}

// ---------------------------------------------------------------------------------------------
// A blank line never ends a block.

/// A line holding nothing but white space.
pub open spec fn blank_line(b: Seq<char>) -> bool {
    forall|i: int| 0 <= i < b.len() ==> white_space(#[trigger] b[i])
}

/// A 1-indexed line number (or a search start) once a line has been inserted at position `p`:
/// everything after the insertion moves down by one.
pub open spec fn renumbered(n: int, p: int) -> int {
    if n > p { n + 1 } else { n }
}

/// Where the line at 0-indexed position `o` sits once a line has been inserted at `p`.
pub open spec fn moved(o: int, p: int) -> int {
    if o >= p { o + 1 } else { o }
}

/// `more` is `lines` with one blank line inserted at position `p`.
pub open spec fn one_blank_more(lines: Seq<Seq<char>>, more: Seq<Seq<char>>, p: int) -> bool {
    &&& 0 <= p <= lines.len()
    &&& more.len() == lines.len() + 1
    &&& blank_line(more[p])
    &&& forall|o: int| 0 <= o < lines.len() ==> more[#[trigger] moved(o, p)] == lines[o]
}

/// A found line, renumbered.
pub open spec fn renumbered_found(r: Option<(int, nat)>, p: int) -> Option<(int, nat)> {
    match r {
        Some((n, a)) => Some((renumbered(n, p), a)),
        None => None,
    }
}

/// A reached segment, renumbered.
pub open spec fn renumbered_reached(r: Option<Reached>, p: int) -> Option<Reached> {
    match r {
        Some((n, a, c)) => Some((renumbered(n, p), a, c)),
        None => None,
    }
}

proof fn lemma_blank_is_bare(b: Seq<char>)
    requires
        blank_line(b),
    ensures
        trimmed_start(b).len() == 0,
{
    lemma_leading(b, b.len() as int);
    crate::text::lemma_trimmed_start_len(b);
}

proof fn lemma_one_blank_more(lines: Seq<Seq<char>>, more: Seq<Seq<char>>, p: int)
    requires
        0 <= p <= lines.len(),
        more == lines.insert(p, more[p]),
    ensures
        more.len() == lines.len() + 1,
        forall|o: int| 0 <= o < lines.len() ==> more[#[trigger] moved(o, p)] == lines[o],
{
    lines.insert_ensures(p, more[p]);
    assert forall|o: int| 0 <= o < lines.len() implies more[#[trigger] moved(o, p)] == lines[o] by {
        if o >= p {
            assert(more[o + 1] == lines[o]);
        }
    }
}

proof fn lemma_key_line_moves(
    lines: Seq<Seq<char>>,
    more: Seq<Seq<char>>,
    p: int,
    key: Seq<char>,
    from: int,
    indent: nat,
    o: int,
)
    requires
        one_blank_more(lines, more, p),
        0 <= o,
    ensures
        key_line_from(more, key, renumbered(from, p), indent, moved(o, p)) == renumbered_found(
            key_line_from(lines, key, from, indent, o),
            p,
        ),
    decreases lines.len() - o,
{
    if o >= lines.len() {
    } else {
        assert(more[moved(o, p)] == lines[o]);
        if moved(o, p) + 1 != moved(o + 1, p) {
            lemma_blank_is_bare(more[p]);
            assert(key_line_from(more, key, renumbered(from, p), indent, p) == key_line_from(
                more,
                key,
                renumbered(from, p),
                indent,
                p + 1,
            ));
        }
        lemma_key_line_moves(lines, more, p, key, from, indent, o + 1);
    }
}

proof fn lemma_key_line_start_moves(
    lines: Seq<Seq<char>>,
    more: Seq<Seq<char>>,
    p: int,
    key: Seq<char>,
    from: int,
    indent: nat,
)
    requires
        one_blank_more(lines, more, p),
    ensures
        key_line_from(more, key, renumbered(from, p), indent, renumbered(from, p))
            == renumbered_found(key_line_from(lines, key, from, indent, from), p),
{
    if from < 0 {
    } else if from == p {
        lemma_blank_is_bare(more[p]);
        assert(key_line_from(more, key, p, indent, p) == key_line_from(more, key, p, indent, p + 1));
        lemma_key_line_moves(lines, more, p, key, from, indent, from);
    } else {
        lemma_key_line_moves(lines, more, p, key, from, indent, from);
    }
}

proof fn lemma_nth_moves(
    lines: Seq<Seq<char>>,
    more: Seq<Seq<char>>,
    p: int,
    nth: nat,
    from: int,
    indent: nat,
    o: int,
    seen: nat,
)
    requires
        one_blank_more(lines, more, p),
        0 <= o,
    ensures
        nth_from(more, nth, renumbered(from, p), indent, moved(o, p), seen) == renumbered_found(
            nth_from(lines, nth, from, indent, o, seen),
            p,
        ),
    decreases lines.len() - o,
{
    if o >= lines.len() {
    } else {
        assert(more[moved(o, p)] == lines[o]);
        if moved(o, p) + 1 != moved(o + 1, p) {
            lemma_blank_is_bare(more[p]);
            assert(nth_from(more, nth, renumbered(from, p), indent, p, seen) == nth_from(
                more,
                nth,
                renumbered(from, p),
                indent,
                p + 1,
                seen,
            ));
            assert(nth_from(more, nth, renumbered(from, p), indent, p, seen + 1) == nth_from(
                more,
                nth,
                renumbered(from, p),
                indent,
                p + 1,
                seen + 1,
            ));
        }
        lemma_nth_moves(lines, more, p, nth, from, indent, o + 1, seen);
        lemma_nth_moves(lines, more, p, nth, from, indent, o + 1, seen + 1);
    }
}

proof fn lemma_nth_start_moves(
    lines: Seq<Seq<char>>,
    more: Seq<Seq<char>>,
    p: int,
    nth: nat,
    from: int,
    indent: nat,
)
    requires
        one_blank_more(lines, more, p),
    ensures
        nth_from(more, nth, renumbered(from, p), indent, renumbered(from, p), 0)
            == renumbered_found(nth_from(lines, nth, from, indent, from, 0), p),
{
    if from < 0 {
    } else if from == p {
        lemma_blank_is_bare(more[p]);
        assert(nth_from(more, nth, p, indent, p, 0) == nth_from(more, nth, p, indent, p + 1, 0));
        lemma_nth_moves(lines, more, p, nth, from, indent, from, 0);
    } else {
        lemma_nth_moves(lines, more, p, nth, from, indent, from, 0);
    }
}

proof fn lemma_longest_moves(
    lines: Seq<Seq<char>>,
    more: Seq<Seq<char>>,
    p: int,
    key: Seq<char>,
    k: int,
    from: int,
    indent: nat,
)
    requires
        one_blank_more(lines, more, p),
    ensures
        longest_from(more, key, k, renumbered(from, p), indent) == renumbered_reached(
            longest_from(lines, key, k, from, indent),
            p,
        ),
    decreases key.len(), k,
{
    if k < 0 || k > key.len() {
    } else {
        let attempt = key.take(k);
        lemma_key_line_start_moves(lines, more, p, attempt, from, indent);
        match key_line_from(lines, attempt, from, indent, from) {
            Some((line, at)) => {
                let rest = without_leading(key.skip(k), '.');
                if rest.len() == 0 {
                } else if rest.len() >= key.len() {
                } else {
                    lemma_longest_moves(lines, more, p, rest, rest.len() as int, line, at);
                }
            },
            None => {
                lemma_last_dot(attempt);
                match last_dot(attempt) {
                    Some(d) => {
                        lemma_longest_moves(lines, more, p, key, d, from, indent);
                    },
                    None => {},
                }
            },
        }
    }
}

proof fn lemma_walk_moves(
    lines: Seq<Seq<char>>,
    more: Seq<Seq<char>>,
    p: int,
    segs: Seq<SegmentModel>,
    i: int,
    deepest: int,
    from: int,
    indent: nat,
)
    requires
        one_blank_more(lines, more, p),
    ensures
        walk(more, segs, i, renumbered(deepest, p), renumbered(from, p), indent) == renumbered(
            walk(lines, segs, i, deepest, from, indent),
            p,
        ),
    decreases segs.len() - i,
{
    if i < 0 || i >= segs.len() {
    } else {
        match segs[i] {
            SegmentModel::Key(key) => {
                lemma_longest_moves(lines, more, p, key, key.len() as int, from, indent);
            },
            SegmentModel::Nth(n) => {
                lemma_nth_start_moves(lines, more, p, n, from, indent);
            },
        }
        match find_spec(lines, segs[i], from, indent) {
            None => {},
            Some((line, at, complete)) => {
                if complete {
                    lemma_walk_moves(lines, more, p, segs, i + 1, line, line, at);
                }
            },
        }
    }
}

/// A blank line never ends a block. Inserting a line of nothing but white space at position `p`
/// of a document's lines moves the line an assertion path resolves to only by the renumbering:
/// it still points at the same key, one line further down when the key came after the
/// insertion. (When nothing resolves the answer is line 1 either way, so the walk starts from
/// the renumbered line 1.)
pub proof fn law_a_blank_line_only_renumbers(
    lines: Seq<Seq<char>>,
    p: int,
    blank: Seq<char>,
    segs: Seq<SegmentModel>,
)
    requires
        0 <= p <= lines.len(),
        blank_line(blank),
    ensures
        walk(lines.insert(p, blank), segs, 0, renumbered(1, p), 0, 0) == renumbered(
            walk(lines, segs, 0, 1, 0, 0),
            p,
        ),
{
    let more = lines.insert(p, blank);
    lines.insert_ensures(p, blank);
    lemma_one_blank_more(lines, more, p);
    lemma_walk_moves(lines, more, p, segs, 0, 1, 0, 0);
}

/// The same for whole documents: when the lines of `longer` are those of `doc` with one blank
/// line inserted after the first, `locate` in `longer` gives the line it gives in `doc`,
/// renumbered.
pub proof fn law_locate_ignores_a_blank_line(
    doc: Seq<char>,
    longer: Seq<char>,
    p: int,
    blank: Seq<char>,
    path: Seq<char>,
)
    requires
        1 <= p <= lines_of(doc).len(),
        blank_line(blank),
        lines_of(longer) == lines_of(doc).insert(p, blank),
    ensures
        locate_spec(longer, path) == renumbered(locate_spec(doc, path), p),
{
    law_a_blank_line_only_renumbers(lines_of(doc), p, blank, segments_of(path));
}

} // verus!
