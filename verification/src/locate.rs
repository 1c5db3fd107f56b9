//! Finding the fake binary, which is not the same problem as finding a library.
//!
//! The fake is an **executable**, because a subject finds a faked tool by name on `PATH` and only
//! an executable is findable that way.

use vstd::prelude::*;

verus! {

/// The name the subject's `PATH` entries are symlinked to.
pub const FAKE: &'static str = "gaveldrop-fake";

/// Where a fake binary was found, and how — the "how" is what makes a failure diagnosable.
#[derive(Debug)]
pub enum Found {
    /// Beside the running executable. The usual case: a cargo build, or an unpacked release.
    Beside(std::path::PathBuf),
    /// Somewhere on `PATH`. What a package manager that splits binaries across directories gives.
    OnPath(std::path::PathBuf),
}

impl Found {
    /// Where it was found, whichever way.
    pub open spec fn location(&self) -> std::path::PathBuf {
        match self {
            Found::Beside(p) => *p,
            Found::OnPath(p) => *p,
        }
    }

    /// The path itself, whichever way it was found; it dereferences to a `Path`.
    pub fn path(&self) -> (p: &std::path::PathBuf)
        ensures
            *p == self.location(),
    {
        match self {
            Found::Beside(path) => path,
            Found::OnPath(path) => path,
        }
    }
}

/// What to tell someone who has no fake anywhere: both ways of getting here, and where it looked.
pub open spec fn advice_text(exe_dir: Seq<char>) -> Seq<char> {
    "no `gaveldrop-fake` beside "@ + exe_dir
        + " nor anywhere on PATH, and it is what shadows the dependencies a case fakes.\n  installed with cargo:  cargo install gaveldrop-fake --locked  (the cli crate cannot pull in another crate's binary, so it takes two commands)\n  in a checkout:         cargo build --workspace  (the fake belongs to its own crate and `-p gaveldrop-cli` does not build it)"@
}

/// What to tell someone who has no fake anywhere, which depends on how they got here.
///
/// `exe_dir` is the directory of the running executable, as text.
pub fn advice(exe_dir: &str) -> (text: String)
    ensures
        text@ == advice_text(exe_dir@),
{
    let mut text = String::from_str("no `gaveldrop-fake` beside ");
    text.append(exe_dir);
    text.append(
        " nor anywhere on PATH, and it is what shadows the dependencies a case fakes.\n  installed with cargo:  cargo install gaveldrop-fake --locked  (the cli crate cannot pull in another crate's binary, so it takes two commands)\n  in a checkout:         cargo build --workspace  (the fake belongs to its own crate and `-p gaveldrop-cli` does not build it)",
    );
    text
}

} // verus!
