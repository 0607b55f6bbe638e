//! What the program is asked to do, as its one optional flag says.

use crate::text::same_text;
use vstd::prelude::*;

verus! {

/// The things the program can do with an index.
#[derive(Debug, Clone, Copy, PartialEq, Eq, Structural)]
pub enum Mode {
    /// Write the full-text dump.
    FullTextDump,
    /// Write the normalized dump.
    NormalizedDump,
    /// Write the pkgconfig dump.
    PkgconfigDump,
    /// Answer queries over the network.
    Serve,
}

/// The mode that a flag asks for, if it is a flag at all.
pub open spec fn mode_of_flag(flag: Seq<char>) -> Option<Mode> {
    if flag == "--dump-sqlite-fulltext-search"@ || flag == "--dump-sqlite"@ {
        Some(Mode::FullTextDump)
    } else if flag == "--dump-sqlite-normalized"@ {
        Some(Mode::NormalizedDump)
    } else if flag == "--dump-sqlite-pkgconfig-libs"@ {
        Some(Mode::PkgconfigDump)
    } else {
        None
    }
}

/// The mode to run in: the one that the flag names; without a flag the
/// query service, where the program can serve. `None` stands for the usage
/// line: an unknown flag, or no flag and nothing to serve with.
pub open spec fn selected_mode(flag: Option<Seq<char>>, can_serve: bool) -> Option<Mode> {
    match flag {
        Some(flag) => mode_of_flag(flag),
        None => if can_serve {
            Some(Mode::Serve)
        } else {
            None
        },
    }
}

/// The line that tells which flags there are.
pub open spec fn usage_text() -> Seq<char> {
    "No valid dump flag provided. Available flags: --dump-sqlite-fulltext-search, --dump-sqlite-normalized, --dump-sqlite-pkgconfig-libs"@
}

/// Reads a flag.
pub fn parse_flag(flag: &str) -> (mode: Option<Mode>)
    ensures
        mode == mode_of_flag(flag@),
{
    if same_text(flag, "--dump-sqlite-fulltext-search") || same_text(flag, "--dump-sqlite") {
        Some(Mode::FullTextDump)
    } else if same_text(flag, "--dump-sqlite-normalized") {
        Some(Mode::NormalizedDump)
    } else if same_text(flag, "--dump-sqlite-pkgconfig-libs") {
        Some(Mode::PkgconfigDump)
    } else {
        None
    }
}

/// Selects the mode from what stands after the index's path on the command
/// line. `None` asks for the usage line.
pub fn select_mode(flag: Option<&str>, can_serve: bool) -> (mode: Option<Mode>)
    ensures
        mode == selected_mode(
            match flag {
                Some(flag) => Some(flag@),
                None => None,
            },
            can_serve,
        ),
{
    match flag {
        Some(flag) => parse_flag(flag),
        None => if can_serve {
            Some(Mode::Serve)
        } else {
            None
        },
    }
}

/// The usage line.
pub fn usage() -> (line: String)
    ensures
        line@ == usage_text(),
{
    String::from_str(
        "No valid dump flag provided. Available flags: --dump-sqlite-fulltext-search, --dump-sqlite-normalized, --dump-sqlite-pkgconfig-libs",
    )
}

} // verus!
