//! Leaving files out of a recursive walk by glob pattern, done by the
//! `globset` crate.

use vstd::prelude::*;
use globset::{Glob, GlobSet, GlobSetBuilder};

verus! {

#[verifier::external_type_specification]
#[verifier::external_body]
pub struct ExGlob(Glob);

#[verifier::external_type_specification]
#[verifier::external_body]
pub struct ExGlobSet(GlobSet);

#[verifier::external_type_specification]
#[verifier::external_body]
pub struct ExGlobSetBuilder(GlobSetBuilder);

#[verifier::external_type_specification]
#[verifier::external_body]
pub struct ExGlobError(globset::Error);

/// Whether `pattern` is a glob that `globset` accepts.
pub uninterp spec fn glob_parses(pattern: Seq<char>) -> bool;

/// Whether the glob `pattern` matches `path`.
pub uninterp spec fn glob_matches(pattern: Seq<char>, path: Seq<char>) -> bool;

/// Whether a set of the globs `patterns` can be built.
pub uninterp spec fn globs_build(patterns: Seq<Seq<char>>) -> bool;

/// The patterns of the globs a builder holds, in the order they were added.
pub uninterp spec fn builder_patterns(b: GlobSetBuilder) -> Seq<Seq<char>>;

/// The patterns of the globs a set was built from.
pub uninterp spec fn set_patterns(s: GlobSet) -> Seq<Seq<char>>;

/// A glob, with the pattern it was parsed from.
struct ParsedGlob {
    glob: Glob,
    pattern: String,
}

/// `Glob::new`: parses `pattern`. The contract claims only that success
/// depends on the pattern alone; nothing about it is proved here.
#[verifier::external_body]
fn parse_glob(pattern: &str) -> (res: Result<ParsedGlob, globset::Error>)
    ensures
        res is Ok <==> glob_parses(pattern@),
        res matches Ok(g) ==> g.pattern@ == pattern@,
{
    match Glob::new(pattern) {
        Ok(glob) => Ok(ParsedGlob { glob, pattern: pattern.to_string() }),
        Err(e) => Err(e),
    }
}

/// `GlobSetBuilder::new`: a builder that holds no glob.
#[verifier::external_body]
fn new_builder() -> (res: GlobSetBuilder)
    ensures
        builder_patterns(res) == Seq::<Seq<char>>::empty(),
{
    GlobSetBuilder::new()
}

/// `GlobSetBuilder::add`: adds a glob after those the builder holds.
#[verifier::external_body]
fn add_glob(b: &mut GlobSetBuilder, g: ParsedGlob)
    ensures
        builder_patterns(*final(b)) == builder_patterns(*old(b)).push(g.pattern@),
{
    b.add(g.glob);
}

/// `GlobSetBuilder::build`: a set of the globs the builder holds. The
/// contract claims only that success depends on the patterns alone; nothing
/// about it is proved here.
#[verifier::external_body]
fn build_set(b: &GlobSetBuilder) -> (res: Result<GlobSet, globset::Error>)
    ensures
        res is Ok <==> globs_build(builder_patterns(*b)),
        res matches Ok(s) ==> set_patterns(s) == builder_patterns(*b),
{
    b.build()
}

/// `GlobSet::is_match`: whether any glob of the set matches `path`, as its
/// documentation says.
#[verifier::external_body]
fn set_matches(s: &GlobSet, path: &str) -> (res: bool)
    ensures
        res == (exists|i: int| 0 <= i < set_patterns(*s).len() && glob_matches(set_patterns(*s)[i], path@)),
{
    s.is_match(path)
}

/// Whether some glob of `patterns` matches `path`.
pub open spec fn any_matches(patterns: Seq<Seq<char>>, path: Seq<char>) -> bool {
    exists|i: int| 0 <= i < patterns.len() && glob_matches(#[trigger] patterns[i], path)
}

/// Why the exclusion patterns cannot be used.
pub enum ExcludeError {
    /// A pattern is not a glob; the index of the first such pattern, and the
    /// parser's report.
    BadPattern(usize, globset::Error),
    /// The globs, each valid, could not be combined into one matcher.
    BuildFailed(globset::Error),
}

/// The globs of files to leave out.
pub struct ExcludeSet {
    set: GlobSet,
    patterns: Vec<String>,
}

/// The views of a list of patterns.
pub open spec fn pattern_texts(v: Seq<String>) -> Seq<Seq<char>> {
    v.map_values(|x: String| x@)
}

impl ExcludeSet {
    /// The patterns the set was built from.
    pub closed spec fn patterns(&self) -> Seq<Seq<char>> {
        pattern_texts(self.patterns@)
    }

    #[verifier::type_invariant]
    spec fn wf(&self) -> bool {
        set_patterns(self.set) == pattern_texts(self.patterns@)
    }

    /// Whether `path` is to be left out: some pattern matches it.
    pub fn excludes(&self, path: &str) -> (res: bool)
        ensures
            res == any_matches(self.patterns(), path@),
    {
        proof {
            use_type_invariant(self);
        }
        if self.patterns.len() == 0 {
            return false;
        }
        set_matches(&self.set, path)
    }
}

/// Builds the set of exclusion globs from `patterns`. Fails on the first
/// pattern that is not a glob, or when the globs cannot be combined.
pub fn build_exclude_set(patterns: &Vec<String>) -> (res: Result<ExcludeSet, ExcludeError>)
    ensures
        match res {
            Ok(s) => {
                &&& s.patterns() == pattern_texts(patterns@)
                &&& forall|i: int| 0 <= i < patterns@.len() ==> glob_parses(#[trigger] patterns@[i]@)
                &&& globs_build(pattern_texts(patterns@))
            },
            Err(ExcludeError::BadPattern(i, _)) => {
                &&& i < patterns@.len()
                &&& !glob_parses(patterns@[i as int]@)
                &&& forall|j: int| 0 <= j < i ==> glob_parses(#[trigger] patterns@[j]@)
            },
            Err(ExcludeError::BuildFailed(_)) => {
                &&& forall|i: int| 0 <= i < patterns@.len() ==> glob_parses(#[trigger] patterns@[i]@)
                &&& !globs_build(pattern_texts(patterns@))
            },
        },
{
    let mut builder = new_builder();
    let mut kept: Vec<String> = Vec::new();
    let mut i: usize = 0;
    while i < patterns.len()
        invariant
            i <= patterns@.len(),
            builder_patterns(builder) == pattern_texts(patterns@.subrange(0, i as int)),
            kept@ == patterns@.subrange(0, i as int),
            forall|j: int| 0 <= j < i ==> glob_parses(#[trigger] patterns@[j]@),
        decreases patterns@.len() - i,
    {
        let p = &patterns[i];
        match parse_glob(p.as_str()) {
            Ok(g) => {
                add_glob(&mut builder, g);
                kept.push(p.clone());
                proof {
                    assert(pattern_texts(patterns@.subrange(0, i + 1)) =~= pattern_texts(
                        patterns@.subrange(0, i as int),
                    ).push(patterns@[i as int]@));
                    assert(kept@ =~= patterns@.subrange(0, i + 1));
                }
            },
            Err(e) => {
                return Err(ExcludeError::BadPattern(i, e));
            },
        }
        i = i + 1;
    }
    assert(patterns@.subrange(0, patterns@.len() as int) =~= patterns@);
    match build_set(&builder) {
        Ok(set) => Ok(ExcludeSet { set, patterns: kept }),
        Err(e) => Err(ExcludeError::BuildFailed(e)),
    }
}

} // verus!
