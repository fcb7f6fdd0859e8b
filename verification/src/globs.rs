//! Glob patterns: what the proxy takes from `globset`.

use globset::{Candidate, Glob, GlobSet, GlobSetBuilder};
use vstd::prelude::*;

verus! {

/// By which options a glob reads its pattern.
pub enum GlobStyle {
    /// The defaults where only a slash separates the parts of a path: a
    /// backslash escapes the character behind it.
    SlashSeparates,
    /// The defaults where a backslash separates the parts of a path as well.
    BackslashSeparates,
    /// Options that were chosen by hand.
    Custom,
}

/// A glob: its pattern and the options by which the pattern is read.
pub struct GlobView {
    pub pattern: Seq<char>,
    pub style: GlobStyle,
}

/// Whether a glob reads its pattern by the defaults of a platform.
pub open spec fn default_style(style: GlobStyle) -> bool {
    style != GlobStyle::Custom
}

/// Whether globs all read their patterns by the defaults of a platform.
pub open spec fn all_default(globs: Seq<GlobView>) -> bool {
    forall|i: int| 0 <= i < globs.len() ==> default_style((#[trigger] globs[i]).style)
}

/// Whether a text holds no character that means something in a glob.
pub open spec fn plain(text: Seq<char>) -> bool {
    forall|i: int|
        0 <= i < text.len() ==> {
            let c = #[trigger] text[i];
            c != '?' && c != '*' && c != '[' && c != ']' && c != '{' && c != '}' && c != ','
                && c != '\\'
        }
}

/// Whether a pattern is one of these: a plain path; what lies behind `**/` or
/// `*`, or before `/**`, is plain; or it asks for a plain extension in any
/// directory.
pub open spec fn simple_pattern(pattern: Seq<char>) -> bool {
    ||| pattern.len() > 0 && plain(pattern)
    ||| {
        let path = pattern.skip("**/"@.len() as int);
        &&& "**/"@.is_prefix_of(pattern)
        &&& path.len() > 0
        &&& plain(path)
    }
    ||| {
        let end = pattern.skip("*"@.len() as int);
        &&& "*"@.is_prefix_of(pattern)
        &&& end.len() > 1
        &&& plain(end)
    }
    ||| {
        let start = pattern.take(pattern.len() - "/**"@.len());
        &&& "/**"@.is_suffix_of(pattern)
        &&& plain(start)
    }
    ||| {
        let extension = pattern.skip("**/*."@.len() as int);
        &&& "**/*."@.is_prefix_of(pattern)
        &&& plain(extension)
        &&& !extension.contains('.')
        &&& !extension.contains('/')
    }
}

/// Whether a pattern has neither classes nor alternates, and no backslash.
pub open spec fn unbracketed(pattern: Seq<char>) -> bool {
    forall|i: int|
        0 <= i < pattern.len() ==> {
            let c = #[trigger] pattern[i];
            c != '[' && c != '{' && c != '}' && c != '\\'
        }
}

/// A simple pattern has no brackets.
pub proof fn simple_patterns_are_unbracketed(pattern: Seq<char>)
    requires
        simple_pattern(pattern),
    ensures
        unbracketed(pattern),
{
    reveal_strlit("**/");
    reveal_strlit("*");
    reveal_strlit("/**");
    reveal_strlit("**/*.");
    assert forall|i: int| 0 <= i < pattern.len() implies {
        let c = #[trigger] pattern[i];
        c != '[' && c != '{' && c != '}' && c != '\\'
    } by {
        let n = pattern.len() as int;
        if pattern.len() > 0 && plain(pattern) {
        } else if "**/"@.is_prefix_of(pattern) && plain(pattern.skip(3)) {
            if i < 3 {
                assert(pattern[i] == pattern.subrange(0, 3)[i]);
            } else {
                assert(pattern[i] == pattern.skip(3)[i - 3]);
            }
        } else if "*"@.is_prefix_of(pattern) && plain(pattern.skip(1)) {
            if i < 1 {
                assert(pattern[i] == pattern.subrange(0, 1)[i]);
            } else {
                assert(pattern[i] == pattern.skip(1)[i - 1]);
            }
        } else if "/**"@.is_suffix_of(pattern) && plain(pattern.take(n - 3)) {
            if i < n - 3 {
                assert(pattern[i] == pattern.take(n - 3)[i]);
            } else {
                assert(pattern[i] == pattern.subrange(n - 3, n)[i - (n - 3)]);
            }
        } else {
            if i < 5 {
                assert(pattern[i] == pattern.subrange(0, 5)[i]);
            } else {
                assert(pattern[i] == pattern.skip(5)[i - 5]);
            }
        }
    }
}

/// Whether globs are all of simple patterns, read by the defaults of a
/// platform.
pub open spec fn all_simple(globs: Seq<GlobView>) -> bool {
    forall|i: int|
        0 <= i < globs.len() ==> simple_pattern((#[trigger] globs[i]).pattern) && default_style(
            globs[i].style,
        )
}

/// The length up to which every glob can be made into a set of its own.
pub const SHORT_LENGTH: usize = 200;

/// The same for globs without alternates.
pub const SHORT_FLAT_LENGTH: usize = 2000;

/// Whether a pattern is short enough for a set of its own.
pub open spec fn short_pattern(pattern: Seq<char>) -> bool {
    pattern.len() <= SHORT_LENGTH || pattern.len() <= SHORT_FLAT_LENGTH && !pattern.contains('{')
}

/// Whether globs are a single one that is short and read by the defaults of a
/// platform.
pub open spec fn one_short(globs: Seq<GlobView>) -> bool {
    globs.len() == 1 && short_pattern(globs[0].pattern) && default_style(globs[0].style)
}

/// Whether the defaults of every platform accept a pattern.
pub open spec fn accepted_everywhere(pattern: Seq<char>) -> bool {
    glob_accepted(pattern, GlobStyle::SlashSeparates) && glob_accepted(
        pattern,
        GlobStyle::BackslashSeparates,
    )
}

/// A compiled pattern of `globset`.
#[verifier::external_type_specification]
#[verifier::external_body]
pub struct ExGlob(globset::Glob);

/// A list of patterns of `globset` that is being put together.
#[verifier::external_type_specification]
#[verifier::external_body]
pub struct ExGlobSetBuilder(globset::GlobSetBuilder);

/// A set of patterns of `globset`, ready for matching.
#[verifier::external_type_specification]
#[verifier::external_body]
pub struct ExGlobSet(globset::GlobSet);

/// Errors of `globset`.
#[verifier::external_type_specification]
#[verifier::external_body]
pub struct ExGlobError(globset::Error);

/// The glob that a compiled pattern holds.
pub uninterp spec fn glob_of(glob: globset::Glob) -> GlobView;

/// The globs that a builder holds, in the order in which they were added.
pub uninterp spec fn globs_added(builder: globset::GlobSetBuilder) -> Seq<GlobView>;

/// The globs that a set holds.
pub uninterp spec fn globs_in(set: globset::GlobSet) -> Seq<GlobView>;

/// Whether `Glob::new` takes a pattern, where it reads it by the given
/// defaults.
pub uninterp spec fn glob_accepted(pattern: Seq<char>, style: GlobStyle) -> bool;

/// Whether a glob with a default style matches a path, by the rules of
/// `globset`.
pub uninterp spec fn glob_matches(pattern: Seq<char>, style: GlobStyle, path: Seq<u8>) -> bool;

/// `Glob::new` compiles a pattern by the defaults of the platform at hand. It
/// refuses what those defaults do not accept as a pattern; which of the two
/// sets of defaults they are, the caller cannot see. Only classes, alternates
/// and backslashes can be written wrongly, so it refuses no pattern without
/// them.
pub assume_specification[ globset::Glob::new ](glob: &str) -> (compiled: Result<
    globset::Glob,
    globset::Error,
>)
    ensures
        match compiled {
            Ok(g) => glob_of(g).pattern == glob@ && default_style(glob_of(g).style)
                && glob_accepted(glob@, glob_of(g).style),
            Err(_) => !glob_accepted(glob@, GlobStyle::SlashSeparates) || !glob_accepted(
                glob@,
                GlobStyle::BackslashSeparates,
            ),
        },
        unbracketed(glob@) ==> compiled is Ok,
;

/// `GlobSetBuilder::new` makes a builder without globs.
pub assume_specification[ globset::GlobSetBuilder::new ]() -> (builder: globset::GlobSetBuilder)
    ensures
        globs_added(builder) == Seq::<GlobView>::empty(),
;

/// `GlobSetBuilder::add` adds a glob behind those added before.
#[verifier::external_body]
pub(crate) fn add_glob(builder: &mut GlobSetBuilder, glob: Glob)
    ensures
        globs_added(*final(builder)) == globs_added(*old(builder)).push(glob_of(glob)),
{
    builder.add(glob);
}

/// `GlobSetBuilder::build` makes a set of the globs that were added. It may
/// fail only where the regular expressions behind the globs grow larger than a
/// limit on their memory, or are nested deeper than 250 levels.
/// - Globs of simple patterns need no regular expression, so it does not fail
///   on them.
/// - A regular expression grows in proportion to its pattern: a character adds
///   a few states, which take some hundred bytes. Only alternates nest: a level
///   of them adds two levels of nesting and takes three characters, or three
///   levels and five. Behind a single pattern of 200 characters, or of 2000
///   without alternates, the regular expression stays far below both limits.
///
/// For longer patterns, when it fails depends on the sizes that the machine
/// gives to the parts of a regular expression, and is not stated.
pub assume_specification[ globset::GlobSetBuilder::build ](
    builder: &globset::GlobSetBuilder,
) -> (built: Result<globset::GlobSet, globset::Error>)
    ensures
        built matches Ok(set) ==> globs_in(set) == globs_added(*builder),
        all_simple(globs_added(*builder)) ==> built is Ok,
        one_short(globs_added(*builder)) ==> built is Ok,
;

/// Matching `Candidate::from_bytes` of a path with
/// `GlobSet::is_match_candidate` tells whether any glob of the set matches the
/// path. Nothing is stated of globs with options chosen by hand.
#[verifier::external_body]
pub(crate) fn set_matches(set: &GlobSet, path: &[u8]) -> (yes: bool)
    ensures
        all_default(globs_in(*set)) ==> yes == (exists|i: int|
            (0 <= i < globs_in(*set).len()) && glob_matches(
                (#[trigger] globs_in(*set)[i]).pattern,
                globs_in(*set)[i].style,
                path@,
            )),
{
    set.is_match_candidate(&Candidate::from_bytes(path))
}

/// Whether a set holds one glob, read by the defaults of a platform.
pub open spec fn single_glob(set: GlobSet) -> bool {
    globs_in(set).len() == 1 && default_style(globs_in(set)[0].style)
}

/// Why a pattern is not watched.
#[derive(Clone, Copy, Debug, PartialEq, Eq, Structural)]
pub enum GlobRefusal {
    /// It is not a glob pattern.
    Invalid,
    /// Its glob is too large to be matched.
    TooLarge,
}

/// Why a pattern is not watched, with the error of `globset`.
#[derive(Debug)]
pub struct GlobFailure {
    pub refusal: GlobRefusal,
    pub error: globset::Error,
}

/// Whether a pattern can be refused for a reason: as invalid, if it has brackets
/// or a backslash and the defaults of some platform do not accept it; as too
/// large, if it is neither simple nor short.
pub open spec fn may_be_refused(pattern: Seq<char>, refusal: GlobRefusal) -> bool {
    match refusal {
        GlobRefusal::Invalid => !unbracketed(pattern) && !accepted_everywhere(pattern),
        GlobRefusal::TooLarge => !simple_pattern(pattern) && !short_pattern(pattern),
    }
}

/// Makes a set of one pattern, if the pattern is not refused.
pub fn compile_glob(pattern: &str) -> (compiled: Result<GlobSet, GlobFailure>)
    ensures
        match compiled {
            Ok(set) => single_glob(set) && globs_in(set)[0].pattern == pattern@ && glob_accepted(
                pattern@,
                globs_in(set)[0].style,
            ),
            Err(failure) => may_be_refused(pattern@, failure.refusal),
        },
{
    let glob: Glob = match Glob::new(pattern) {
        Ok(glob) => glob,
        Err(error) => {
            return Err(GlobFailure { refusal: GlobRefusal::Invalid, error });
        },
    };
    let mut builder: GlobSetBuilder = GlobSetBuilder::new();
    add_glob(&mut builder, glob);
    match builder.build() {
        Ok(set) => Ok(set),
        Err(error) => Err(GlobFailure { refusal: GlobRefusal::TooLarge, error }),
    }
}

/// Whether the one glob of a set matches a path.
pub fn single_glob_matches(set: &GlobSet, path: &[u8]) -> (yes: bool)
    requires
        single_glob(*set),
    ensures
        yes == glob_matches(globs_in(*set)[0].pattern, globs_in(*set)[0].style, path@),
{
    set_matches(set, path)
}

/// A pattern is refused as invalid only if it has a bracket, a brace or a
/// backslash and some platform does not accept it, and as too large only if it
/// is long: more than 200 characters with a brace, or more than 2000 without.
pub proof fn refusals_have_their_reason(pattern: Seq<char>)
    ensures
        may_be_refused(pattern, GlobRefusal::Invalid) ==> {
            &&& !(glob_accepted(pattern, GlobStyle::SlashSeparates) && glob_accepted(
                pattern,
                GlobStyle::BackslashSeparates,
            ))
            &&& pattern.contains('[') || pattern.contains('{') || pattern.contains('}')
                || pattern.contains('\\')
        },
        may_be_refused(pattern, GlobRefusal::TooLarge) ==> {
            &&& pattern.len() > 200
            &&& pattern.len() > 2000 || pattern.contains('{')
        },
{
    if !pattern.contains('[') && !pattern.contains('{') && !pattern.contains('}')
        && !pattern.contains('\\') {
        assert(unbracketed(pattern));
    }
}

}
