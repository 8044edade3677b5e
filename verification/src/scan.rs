//! The scan: which of the paths of a workspace are manifests of the run.

use crate::error::Error;
use crate::glob::{
    compile_glob, compile_matcher, is_match, matcher_paths, pattern_paths, MAX_PATTERN,
};
use crate::model::names;
use globset::GlobMatcher;
use vstd::prelude::*;

verus! {

/// The pattern of a manifest: a file named `Cargo.toml`, at any depth.
pub const MANIFEST_GLOB: &'static str = "**/Cargo.toml";

/// The pattern of a manifest under a build-output directory: one with a
/// directory named `target` above it.
pub const BUILD_OUTPUT_GLOB: &'static str = "**/target/**/Cargo.toml";

/// Tells manifests from other paths, by two compiled patterns.
#[derive(Debug)]
pub struct PathFilter {
    manifest: GlobMatcher,
    build_output: GlobMatcher,
}

/// The rule of the scan: a path is taken where it is a manifest and, where
/// build output is to be ignored, no build output.
pub open spec fn selected(
    manifests: Set<Seq<char>>,
    build_outputs: Set<Seq<char>>,
    path: Seq<char>,
    ignore_target: bool,
) -> bool {
    manifests.contains(path) && !(ignore_target && build_outputs.contains(path))
}

/// The paths that a pattern stands for in a filter: those that it matches,
/// or nothing where the pattern is longer than `MAX_PATTERN` characters or
/// is refused.
pub open spec fn accepted(pattern: Seq<char>) -> Option<Set<Seq<char>>> {
    if pattern.len() > MAX_PATTERN {
        None
    } else {
        pattern_paths(pattern)
    }
}

/// The paths that the pattern of a manifest matches.
pub open spec fn manifest_paths() -> Set<Seq<char>> {
    accepted(MANIFEST_GLOB@)->Some_0
}

/// The paths that the pattern of a manifest under build output matches.
pub open spec fn build_output_paths() -> Set<Seq<char>> {
    accepted(BUILD_OUTPUT_GLOB@)->Some_0
}

/// The first of the two patterns of a manifest that is refused, if one is.
pub open spec fn refused() -> Option<Seq<char>> {
    if accepted(MANIFEST_GLOB@) is None {
        Some(MANIFEST_GLOB@)
    } else if accepted(BUILD_OUTPUT_GLOB@) is None {
        Some(BUILD_OUTPUT_GLOB@)
    } else {
        None
    }
}

/// What the scan says of a path, under the two patterns of a manifest.
pub open spec fn included(path: Seq<char>, ignore_target: bool) -> bool {
    selected(manifest_paths(), build_output_paths(), path, ignore_target)
}

/// Those of `paths` that the scan takes, in place.
pub open spec fn kept(
    manifests: Set<Seq<char>>,
    build_outputs: Set<Seq<char>>,
    paths: Seq<Seq<char>>,
    ignore_target: bool,
) -> Seq<Seq<char>>
    decreases paths.len(),
{
    if paths.len() == 0 {
        paths
    } else {
        let rest = kept(manifests, build_outputs, paths.drop_last(), ignore_target);
        if selected(manifests, build_outputs, paths.last(), ignore_target) {
            rest.push(paths.last())
        } else {
            rest
        }
    }
}

/// Compiles a pattern to a matcher, or says that it was refused. A pattern
/// of more than `MAX_PATTERN` characters is refused unseen.
fn compile(pattern: &str) -> (r: Result<GlobMatcher, Error>)
    ensures
        match accepted(pattern@) {
            Some(paths) => r matches Ok(matcher) && matcher_paths(matcher) == paths,
            None => r matches Err(Error::Pattern(p)) && p@ == pattern@,
        },
{
    if pattern.unicode_len() > MAX_PATTERN {
        return Err(Error::Pattern(pattern.to_owned()));
    }
    match compile_glob(pattern) {
        Some(glob) => Ok(compile_matcher(&glob)),
        None => Err(Error::Pattern(pattern.to_owned())),
    }
}

impl PathFilter {
    /// The paths that the filter takes for manifests.
    pub closed spec fn manifests(&self) -> Set<Seq<char>> {
        matcher_paths(self.manifest)
    }

    /// The paths that the filter takes for build output.
    pub closed spec fn build_outputs(&self) -> Set<Seq<char>> {
        matcher_paths(self.build_output)
    }

    /// A filter by two patterns of the caller's.
    ///
    /// It fails with `Error::Pattern` of the first of the two that is
    /// refused or is longer than `MAX_PATTERN` characters.
    pub fn with_patterns(manifest: &str, build_output: &str) -> (r: Result<PathFilter, Error>)
        ensures
            match (accepted(manifest@), accepted(build_output@)) {
                (Some(manifests), Some(build_outputs)) => {
                    &&& r matches Ok(filter)
                    &&& filter.manifests() == manifests
                    &&& filter.build_outputs() == build_outputs
                },
                (None, _) => r matches Err(Error::Pattern(p)) && p@ == manifest@,
                (Some(_), None) => r matches Err(Error::Pattern(p)) && p@ == build_output@,
            },
    {
        let manifest = match compile(manifest) {
            Ok(matcher) => matcher,
            Err(e) => {
                return Err(e);
            },
        };
        let build_output = match compile(build_output) {
            Ok(matcher) => matcher,
            Err(e) => {
                return Err(e);
            },
        };
        Ok(PathFilter { manifest, build_output })
    }

    /// The filter of a run, by the two patterns of a manifest.
    ///
    /// It fails with `Error::Pattern` of the first of the two that is
    /// refused.
    pub fn new() -> (r: Result<PathFilter, Error>)
        ensures
            match refused() {
                None => {
                    &&& r matches Ok(filter)
                    &&& filter.manifests() == manifest_paths()
                    &&& filter.build_outputs() == build_output_paths()
                },
                Some(pattern) => r matches Err(Error::Pattern(p)) && p@ == pattern,
            },
    {
        Self::with_patterns(MANIFEST_GLOB, BUILD_OUTPUT_GLOB)
    }

    /// Tells whether the scan takes a path.
    pub fn included(&self, path: &str, ignore_target: bool) -> (b: bool)
        ensures
            b == selected(self.manifests(), self.build_outputs(), path@, ignore_target),
    {
        if ignore_target {
            is_match(&self.manifest, path) && !is_match(&self.build_output, path)
        } else {
            is_match(&self.manifest, path)
        }
    }

    /// Those of the paths that the scan takes, in the order in which they
    /// came.
    pub fn select(&self, paths: &Vec<String>, ignore_target: bool) -> (taken: Vec<String>)
        ensures
            names(taken@) == kept(
                self.manifests(),
                self.build_outputs(),
                names(paths@),
                ignore_target,
            ),
    {
        let mut taken: Vec<String> = Vec::new();
        let ghost all = names(paths@);
        let mut i: usize = 0;
        assert(names(taken@) =~= kept(
            self.manifests(),
            self.build_outputs(),
            all.take(0),
            ignore_target,
        ));
        while i < paths.len()
            invariant
                i <= paths.len(),
                all == names(paths@),
                names(taken@) == kept(
                    self.manifests(),
                    self.build_outputs(),
                    all.take(i as int),
                    ignore_target,
                ),
            decreases paths.len() - i,
        {
            proof {
                assert(all.take(i + 1).drop_last() =~= all.take(i as int));
            }
            if self.included(paths[i].as_str(), ignore_target) {
                taken.push(paths[i].clone());
            }
            i += 1;
        }
        assert(all.take(paths.len() as int) =~= all);
        taken
    }
}

/// Tells whether the scan takes a path: whether it is a manifest, and, where
/// `ignore_target` is set, lies under no build-output directory.
///
/// It fails with `Error::Pattern` where one of the two patterns of a
/// manifest is refused.
pub fn filter_cargo_configs(path: &str, ignore_target: bool) -> (r: Result<bool, Error>)
    ensures
        match refused() {
            None => r == Ok::<bool, Error>(included(path@, ignore_target)),
            Some(pattern) => r matches Err(Error::Pattern(p)) && p@ == pattern,
        },
{
    match PathFilter::new() {
        Ok(filter) => Ok(filter.included(path, ignore_target)),
        Err(e) => Err(e),
    }
}

/// The manifests among the paths of a workspace, in the order in which the
/// paths came.
///
/// It fails with `Error::Pattern` where one of the two patterns of a
/// manifest is refused.
pub fn get_cargo_configs(paths: &Vec<String>, ignore_target: bool) -> (r: Result<
    Vec<String>,
    Error,
>)
    ensures
        match refused() {
            None => r matches Ok(taken) && names(taken@) == kept(
                manifest_paths(),
                build_output_paths(),
                names(paths@),
                ignore_target,
            ),
            Some(pattern) => r matches Err(Error::Pattern(p)) && p@ == pattern,
        },
{
    match PathFilter::new() {
        Ok(filter) => Ok(filter.select(paths, ignore_target)),
        Err(e) => Err(e),
    }
}

} // verus!
