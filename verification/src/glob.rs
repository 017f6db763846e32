//! Glob patterns and sets of them, from the `globset` crate.
use vstd::prelude::*;
use globset::{Glob, GlobSet, GlobSetBuilder};

verus! {

#[verifier::external_type_specification]
#[verifier::external_body]
pub struct ExGlob(Glob);

#[verifier::external_type_specification]
#[verifier::external_body]
pub struct ExGlobSetBuilder(GlobSetBuilder);

#[verifier::external_type_specification]
#[verifier::external_body]
pub struct ExGlobSet(GlobSet);

/// Whether `Glob::new` accepts a pattern.
pub uninterp spec fn glob_valid(pattern: Seq<char>) -> bool;

/// Whether the glob `pattern` (default options) matches `path`.
pub uninterp spec fn glob_matches(pattern: Seq<char>, path: Seq<char>) -> bool;

/// The pattern a compiled glob was made from.
pub uninterp spec fn glob_pattern(g: Glob) -> Seq<char>;

/// The patterns added to a builder, in order.
pub uninterp spec fn builder_patterns(b: GlobSetBuilder) -> Seq<Seq<char>>;

/// The patterns a set was built from, in order.
pub uninterp spec fn set_patterns(s: GlobSet) -> Seq<Seq<char>>;

/// `Glob::new`: accepts exactly the patterns [`glob_valid`] names; the glob
/// it returns was made from the given pattern. An error becomes its
/// message.
#[verifier::external_body]
pub(crate) fn new_glob(pattern: &str) -> (r: Result<Glob, String>)
    ensures
        r is Ok <==> glob_valid(pattern@),
        r matches Ok(g) ==> glob_pattern(g) == pattern@,
{
    Glob::new(pattern).map_err(|e| e.to_string())
}

/// `GlobSetBuilder::new`: a builder with no patterns.
#[verifier::external_body]
pub(crate) fn new_builder() -> (r: GlobSetBuilder)
    ensures
        builder_patterns(r) == Seq::<Seq<char>>::empty(),
{
    GlobSetBuilder::new()
}

/// `GlobSetBuilder::add`: appends the glob's pattern to the builder's.
#[verifier::external_body]
pub(crate) fn builder_add(b: &mut GlobSetBuilder, g: Glob)
    ensures
        builder_patterns(*final(b)) == builder_patterns(*old(b)).push(glob_pattern(g)),
{
    b.add(g);
}

/// Whether `GlobSet::new` builds a set from globs made (with default
/// options) from these patterns: it fails only when a combined regex
/// exceeds the crate's size limits, which depends on the patterns alone.
pub uninterp spec fn globs_build(patterns: Seq<Seq<char>>) -> bool;

/// `GlobSetBuilder::build`: a set made from the builder's patterns. It
/// succeeds exactly when [`globs_build`] holds of them, and always without
/// patterns (`GlobSet::new` returns the empty set at once). An error
/// becomes its message.
#[verifier::external_body]
pub(crate) fn builder_build(b: &GlobSetBuilder) -> (r: Result<GlobSet, String>)
    ensures
        r matches Ok(s) ==> set_patterns(s) == builder_patterns(*b),
        r is Ok <==> globs_build(builder_patterns(*b)),
        builder_patterns(*b).len() == 0 ==> r is Ok,
{
    b.build().map_err(|e| e.to_string())
}

/// `GlobSet::is_match`: whether any of the set's globs matches the path.
#[verifier::external_body]
pub(crate) fn set_is_match(s: &GlobSet, path: &str) -> (r: bool)
    ensures
        r == (exists|i: int|
            0 <= i < set_patterns(*s).len() && glob_matches(#[trigger] set_patterns(*s)[i], path@)),
{
    s.is_match(path)
}

} // verus!
