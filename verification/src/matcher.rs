//! The trusted seam to the `globset` crate.
//!
//! A compiled matcher is rebuilt from its pattern text on every call, so the
//! rest of the library can treat matching as a pure function of two strings.
//! A pattern counts as accepted only when the whole pipeline succeeds: the
//! text parses as a glob *and* its matcher compiles within globset's
//! internal limits — both steps report failure as an error value on the
//! fallible one-glob set path used here.  All options are pinned
//! (case-insensitive, literal path separator, backslash escaping on), so
//! both outcomes are deterministic functions of the given texts; they are
//! named by the two uninterpreted functions below and nothing else is
//! assumed of them.

use vstd::prelude::*;

verus! {

/// Whether `globset` accepts `pat`: the pattern text parses as a glob and
/// its matcher compiles within globset's internal size limits.  A function
/// of the pattern text alone under the fixed options.
pub uninterp spec fn glob_accepts(pat: Seq<char>) -> bool;

/// The verdict of the compiled matcher for `pat` on the path text `path`,
/// under the fixed options.
pub uninterp spec fn glob_matches(pat: Seq<char>, path: Seq<char>) -> bool;

/// Relies on `globset::GlobBuilder::build` and `globset::GlobSetBuilder::build`:
/// parsing the pattern and compiling its matcher are deterministic functions
/// of the pattern text under the fixed options, and on this path both report
/// a pattern they cannot handle as an error value, never a panic.
#[verifier::external_body]
pub(crate) fn glob_check(pat: &str) -> (r: Result<(), String>)
    ensures
        r is Ok <==> glob_accepts(pat@),
{
    let parsed = globset::GlobBuilder::new(pat)
        .case_insensitive(true)
        .literal_separator(true)
        .backslash_escape(true)
        .build();
    match parsed {
        Ok(glob) => match globset::GlobSetBuilder::new().add(glob).build() {
            Ok(_) => Ok(()),
            Err(e) => Err(format!("{}", e)),
        },
        Err(e) => Err(format!("{}", e)),
    }
}

/// Relies on `globset::GlobBuilder::build`, `globset::GlobSetBuilder::build`
/// and `globset::GlobSet::is_match`: for an accepted pattern (see
/// [`glob_accepts`]) both builds succeed — the `requires` admits no other —
/// and the one-glob set's verdict is a function of the pattern and path
/// texts alone, under the fixed options.
#[verifier::external_body]
pub(crate) fn glob_match(pat: &str, path: &str) -> (r: bool)
    requires
        glob_accepts(pat@),
    ensures
        r == glob_matches(pat@, path@),
{
    let glob = globset::GlobBuilder::new(pat)
        .case_insensitive(true)
        .literal_separator(true)
        .backslash_escape(true)
        .build()
        .unwrap();
    globset::GlobSetBuilder::new().add(glob).build().unwrap().is_match(path)
}

/// Tests whether `path` satisfies the glob pattern `pat`, or reports that
/// the pattern itself is not accepted.
pub fn pattern_matches(pat: &str, path: &str) -> (r: Option<bool>)
    ensures
        r is Some <==> glob_accepts(pat@),
        r matches Some(b) ==> b == glob_matches(pat@, path@),
{
    match glob_check(pat) {
        Ok(()) => Some(glob_match(pat, path)),
        Err(_) => None,
    }
}

} // verus!
