//! Globs of paths, matched with the [`globset`](https://docs.rs/globset) crate.
use vstd::prelude::*;

verus! {

/// Globs that are being collected.
#[verifier::external_type_specification]
#[verifier::external_body]
pub struct ExGlobSetBuilder(globset::GlobSetBuilder);

/// Globs that are matched together.
#[verifier::external_type_specification]
#[verifier::external_body]
pub struct ExGlobSet(globset::GlobSet);

/// Why a glob cannot be read, or a set of globs not be built.
#[verifier::external_type_specification]
#[verifier::external_body]
pub struct ExGlobError(globset::Error);

/// One glob of a set: its pattern, and whether its `*` and `?` stop at `/`.
pub struct GlobView {
    pub pattern: Seq<char>,
    pub literal_separator: bool,
}

/// Whether a pattern can be read as a glob, with `*` and `?` stopping at `/` or not.
/// A `\` escapes the next character on targets whose paths are not separated by it,
/// so the answer is one and the same on one target.
pub uninterp spec fn reads_as_glob(pattern: Seq<char>, literal_separator: bool) -> bool;

/// The globs collected so far.
pub uninterp spec fn builder_globs(builder: globset::GlobSetBuilder) -> Seq<GlobView>;

/// The globs of a set.
pub uninterp spec fn set_globs(set: globset::GlobSet) -> Seq<GlobView>;

/// Whether globs can be built into one set. What their regular expressions take up
/// is measured in bytes, so the answer is one and the same on one target.
pub uninterp spec fn globs_fit(globs: Seq<GlobView>) -> bool;

/// Whether a glob matches a path. The pattern decides how it is matched: as literal
/// text, by the last component or the extension of the path, or as a regular
/// expression. Paths are split as the target splits them, so the answer is one and
/// the same on one target.
pub uninterp spec fn glob_matches(
    pattern: Seq<char>,
    literal_separator: bool,
    path: Seq<char>,
) -> bool;

/// Whether one of `globs` matches a path.
pub open spec fn any_matches(globs: Seq<GlobView>, path: Seq<char>) -> bool {
    exists|i: int|
        0 <= i < globs.len() && glob_matches(
            (#[trigger] globs[i]).pattern,
            globs[i].literal_separator,
            path,
        )
}

/// `globset::GlobSetBuilder::new`: no glob is collected yet.
#[verifier::external_body]
pub(crate) fn new_builder() -> (builder: globset::GlobSetBuilder)
    ensures
        builder_globs(builder) == Seq::<GlobView>::empty(),
{
    globset::GlobSetBuilder::new()
}

/// `globset::GlobBuilder::build` of the pattern, then `globset::GlobSetBuilder::add`:
/// the glob comes last. A pattern that cannot be read is an error and adds
/// nothing.
#[verifier::external_body]
pub(crate) fn add_glob(
    builder: &mut globset::GlobSetBuilder,
    pattern: &str,
    literal_separator: bool,
) -> (added: Result<(), globset::Error>)
    ensures
        added is Ok == reads_as_glob(pattern@, literal_separator),
        builder_globs(*final(builder)) == (if reads_as_glob(pattern@, literal_separator) {
            builder_globs(*old(builder)).push(
                (GlobView { pattern: pattern@, literal_separator }),
            )
        } else {
            builder_globs(*old(builder))
        }),
{
    let mut glob = globset::GlobBuilder::new(pattern);
    builder.add(glob.literal_separator(literal_separator).build()?);
    Ok(())
}

/// `globset::GlobSetBuilder::build`: a set of the globs collected so far, or an
/// error where their regular expressions grow too large together.
#[verifier::external_body]
pub(crate) fn build_set(builder: &globset::GlobSetBuilder) -> (set: Result<
    globset::GlobSet,
    globset::Error,
>)
    ensures
        set is Ok == globs_fit(builder_globs(*builder)),
        set matches Ok(s) ==> set_globs(s) == builder_globs(*builder),
{
    builder.build()
}

/// `globset::GlobSet::is_match`: whether any glob of the set matches the path.
/// What one glob matches does not depend on the others.
#[verifier::external_body]
pub(crate) fn set_matches(set: &globset::GlobSet, path: &str) -> (found: bool)
    ensures
        found == (exists|i: int|
            0 <= i < set_globs(*set).len() && glob_matches(
                (#[trigger] set_globs(*set)[i]).pattern,
                set_globs(*set)[i].literal_separator,
                path@,
            )),
{
    set.is_match(path)
}

} // verus!
