//! The rank of a call, persisted from one process to the next.
//!
//! Claiming a rank is the file system's business and happens outside the library; what is here
//! is the part that decides **which file** a key is counted in.

use vstd::prelude::*;
use crate::text::{hex_padded, push_char, push_hex, trimmed};
use vstd::string::StringSliceAdditionalSpecFns;

verus! {

/// Call counter, one file per key inside a directory.
///
/// Every intercepted call is a **different process**, so the counter cannot live in memory. It
/// lives in a directory the core prepared. The **key** is supplied by the caller, not inferred.
pub struct Counter {
    dir: std::path::PathBuf,
}

/// What can go wrong with the counter.
#[derive(Debug)]
pub enum CounterError {
    /// The core did not set the state directory variable before invoking the fake.
    MissingEnv(&'static str),
    /// The state directory or one of its files could not be written.
    Io {
        /// The path that could not be written.
        path: std::path::PathBuf,
        /// The underlying failure.
        source: std::io::Error,
    },
}

impl CounterError {
    /// What the failure says.
    pub fn message(&self) -> (text: String)
        ensures
            self matches CounterError::MissingEnv(name) ==> text@ == "environment variable "@ + name@
                + " is missing: the core must set it before invoking the fake"@,
            self is Io ==> crate::text::begins(text@, "writing the counter under "@),
    {
        match self {
            CounterError::MissingEnv(name) => {
                let mut out = String::from_str("environment variable ");
                out.append(name);
                out.append(" is missing: the core must set it before invoking the fake");
                out
            },
            CounterError::Io { path, source } => {
                let mut out = String::from_str("writing the counter under ");
                let ghost head = out@;
                let shown = crate::ext::path_text(crate::ext::as_path(path));
                out.append(shown.as_str());
                out.append(": ");
                let why = crate::ext::io_error_text(source);
                out.append(why.as_str());
                assert(out@.subrange(0, head.len() as int) =~= head);
                out
            },
        }
    }
}

impl Counter {
    /// A counter living in `dir`. The directory is created on the first call.
    pub fn new(dir: std::path::PathBuf) -> (c: Self)
        ensures
            c.location() == dir,
    {
        Counter { dir }
    }

    /// Where the counter keeps its files.
    pub closed spec fn location(&self) -> std::path::PathBuf {
        self.dir
    }

    /// The state directory, for callers that want to read it directly: the one the counter was
    /// made with. It dereferences to a `Path`.
    pub fn dir(&self) -> (d: &std::path::PathBuf)
        ensures
            *d == self.location(),
    {
        &self.dir
    }
}

/// A character that may stand in a file name as it is.
pub open spec fn safe_char(c: char) -> bool {
    ('0' <= c <= '9') || ('a' <= c <= 'z') || ('A' <= c <= 'Z') || c == '-' || c == '_'
}

/// The readable part of a key's file name: every other character replaced by `_`.
pub open spec fn sanitized(key: Seq<char>) -> Seq<char> {
    key.map_values(|c: char| if safe_char(c) { c } else { '_' })
}

/// The offset basis of 64-bit FNV-1a.
pub open spec fn fnv_basis() -> u64 {
    0xcbf2_9ce4_8422_2325
}

/// The prime of 64-bit FNV-1a.
pub open spec fn fnv_prime() -> u64 {
    0x100_0000_01b3
}

/// FNV-1a, 64 bits, over `bytes`.
pub open spec fn fnv1a_of(bytes: Seq<u8>) -> u64
    decreases bytes.len(),
{
    if bytes.len() == 0 {
        fnv_basis()
    } else {
        (fnv1a_of(bytes.drop_last()) ^ (bytes.last() as u64)).wrapping_mul(fnv_prime())
    }
}

/// FNV-1a, 64 bits, over the UTF-8 bytes of `text`. Chosen because it fits in ten lines and needs
/// no dependency: this discriminates keys, it protects nothing.
pub fn fnv1a(text: &str) -> (hash: u64)
    ensures
        hash == fnv1a_of(text.spec_bytes()),
{
    let bytes = text.as_bytes();
    let mut hash: u64 = 0xcbf2_9ce4_8422_2325;
    let mut i: usize = 0;
    while i < bytes.len()
        invariant
            i <= bytes@.len(),
            bytes@ == text.spec_bytes(),
            hash == fnv1a_of(bytes@.take(i as int)),
        decreases bytes@.len() - i,
    {
        assert(bytes@.take(i + 1).drop_last() =~= bytes@.take(i as int));
        hash = hash ^ (bytes[i] as u64);
        hash = hash.wrapping_mul(0x100_0000_01b3);
        i = i + 1;
    }
    assert(bytes@.take(bytes@.len() as int) =~= bytes@);
    hash
}

/// The file name a key is counted under.
pub open spec fn file_name(key: Seq<char>, bytes: Seq<u8>) -> Seq<char> {
    let readable = sanitized(key);
    let kept = if readable.len() > 180 { readable.take(180) } else { readable };
    kept + seq!['-'] + hex_padded(fnv1a_of(bytes) as nat, 16)
}

/// Turns an arbitrary key into a safe file name stem.
///
/// Two requirements: the name must not be able to escape the state directory (`../..`), and
/// **two distinct keys must not produce the same name**. Simply replacing awkward characters
/// fails the second point, since `a/b` and `a b` would both become `a_b`. So the name is
/// suffixed with a fingerprint of the original key. The readable part is truncated to 180
/// characters before the fingerprint: some file systems cap names at 255 bytes.
pub fn file_name_for(key: &str) -> (name: String)
    ensures
        name@ == file_name(key@, key.spec_bytes()),
{
    let cs = crate::text::chars_of(key);
    let mut safe = String::new();
    let mut i: usize = 0;
    while i < cs.len() && i < 180
        invariant
            i <= cs.len(),
            i <= 180,
            cs@ == key@,
            safe@ == sanitized(key@).take(i as int),
        decreases cs.len() - i,
    {
        let c = cs[i];
        let keep = ('0' <= c && c <= '9') || ('a' <= c && c <= 'z') || ('A' <= c && c <= 'Z') || c == '-' || c == '_';
        if keep {
            push_char(&mut safe, c);
        } else {
            push_char(&mut safe, '_');
        }
        assert(sanitized(key@).take(i + 1) =~= sanitized(key@).take(i as int).push(sanitized(key@)[i as int]));
        i = i + 1;
    }
    proof {
        let readable = sanitized(key@);
        if readable.len() <= 180 {
            assert(readable.take(i as int) =~= readable);
        }
    }
    push_char(&mut safe, '-');
    push_hex(&mut safe, fnv1a(key), 16);
    safe
}

/// A file name built for any key stays a single name inside the state directory: no separator
/// and no character other than letters, digits, `-` and `_` can appear in it, so no `..` or `/`
/// can carry it out of the directory.
pub proof fn lemma_file_name_stays_inside(key: Seq<char>, bytes: Seq<u8>)
    ensures
        forall|i: int| 0 <= i < file_name(key, bytes).len() ==> safe_char(#[trigger] file_name(key, bytes)[i]),
{
    let readable = sanitized(key);
    let kept = if readable.len() > 180 { readable.take(180) } else { readable };
    let h = hex_padded(fnv1a_of(bytes) as nat, 16);
    lemma_hex_is_safe(fnv1a_of(bytes) as nat, 16);
    assert forall|i: int| 0 <= i < file_name(key, bytes).len() implies safe_char(#[trigger] file_name(key, bytes)[i]) by {
        if i < kept.len() {
            assert(file_name(key, bytes)[i] == readable[i]);
        } else if i == kept.len() {
        } else {
            assert(file_name(key, bytes)[i] == h[i - kept.len() - 1]);
        }
    }
}

proof fn lemma_hex_is_safe(n: nat, width: nat)
    ensures
        forall|i: int| 0 <= i < hex_padded(n, width).len() ==> safe_char(#[trigger] hex_padded(n, width)[i]),
        hex_padded(n, width).len() == width,
    decreases width,
{
    if width > 0 {
        lemma_hex_is_safe(n / 16, (width - 1) as nat);
    }
}

/// The rank a counter's hint file points at, read as `u32` is read from text once trimmed, when it
/// is one a call can have: `1` or more.
pub open spec fn hinted(text: Seq<char>) -> Option<nat> {
    match crate::report::lines::parsed_index(trimmed(text)) {
        Some(n) => if 1 <= n <= u32::MAX { Some(n) } else { None },
        None => None,
    }
}

/// The rank a counter's hint says the next claim can start from, when it says one at all.
///
/// Only a hint: the caller still checks that the claim it names exists, and starts from `1` when
/// anything is off — a lost hint costs a scan, never a wrong rank.
pub fn hinted_rank(text: &str) -> (r: Option<u32>)
    ensures
        match r {
            Some(n) => hinted(text@) == Some(n as nat),
            None => hinted(text@) is None,
        },
{
    let t = crate::text::trim(text);
    let cs = crate::text::chars_of(t.as_str());
    match crate::report::lines::parse_index(&cs) {
        Some(n) => {
            if n >= 1 && n <= 4294967295usize {
                Some(n as u32)
            } else {
                None
            }
        },
        None => None,
    }
}

} // verus!
