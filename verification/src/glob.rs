//! Patterns for paths, as `globset` compiles and matches them. Nothing in
//! this file is proved: each contract here is taken from the source of
//! `globset`.

use globset::{Glob, GlobMatcher};
use vstd::prelude::*;

verus! {

/// `globset::Glob`: a pattern that was accepted. The proofs see of it only
/// what `glob_paths` names.
#[verifier::external_type_specification]
#[verifier::external_body]
pub struct ExGlob(Glob);

/// `globset::GlobMatcher`: a compiled pattern. The proofs see of it only
/// what `matcher_paths` names.
#[verifier::external_type_specification]
#[verifier::external_body]
pub struct ExGlobMatcher(GlobMatcher);

/// What `Glob::new` makes of a pattern: the paths, given as text, that the
/// pattern matches under the default options, or nothing where the pattern
/// is refused. Path separators are read as this build's platform reads them.
pub uninterp spec fn pattern_paths(pattern: Seq<char>) -> Option<Set<Seq<char>>>;

/// The paths, given as text, that a matcher compiled from the glob matches.
pub uninterp spec fn glob_paths(glob: Glob) -> Set<Seq<char>>;

/// The pattern that the glob was made of.
pub uninterp spec fn glob_text(glob: Glob) -> Seq<char>;

/// The longest pattern, in characters, that is handed on to be compiled to
/// a matcher.
pub const MAX_PATTERN: usize = 128;

/// The paths, given as text, that the matcher matches.
pub uninterp spec fn matcher_paths(matcher: GlobMatcher) -> Set<Seq<char>>;

/// `Glob::new`: compiles a pattern with the default options, or refuses it.
/// The glob keeps the pattern. What the call says of a refused pattern is
/// dropped.
#[verifier::external_body]
pub(crate) fn compile_glob(pattern: &str) -> (r: Option<Glob>)
    ensures
        match r {
            Some(glob) => {
                &&& pattern_paths(pattern@) == Some(glob_paths(glob))
                &&& glob_text(glob) == pattern@
            },
            None => pattern_paths(pattern@) is None,
        },
{
    Glob::new(pattern).ok()
}

/// `Glob::compile_matcher`: a matcher for the paths of the glob. The call
/// builds a regular expression from the pattern and panics where that is
/// refused: nested more than 250 deep, or larger than 10 MiB when compiled.
/// Each `{` of the pattern, which needs its `}`, adds at most three levels,
/// and each character a few states: a pattern of at most `MAX_PATTERN`
/// characters stays far below both limits.
#[verifier::external_body]
pub(crate) fn compile_matcher(glob: &Glob) -> (matcher: GlobMatcher)
    requires
        glob_text(*glob).len() <= MAX_PATTERN,
    ensures
        matcher_paths(matcher) == glob_paths(*glob),
{
    glob.compile_matcher()
}

/// `GlobMatcher::is_match` on a path given as text.
#[verifier::external_body]
pub(crate) fn is_match(matcher: &GlobMatcher, path: &str) -> (b: bool)
    ensures
        b == matcher_paths(*matcher).contains(path@),
{
    matcher.is_match(path)
}

} // verus!
