//! The ignore matcher: built-in extension globs, the user's patterns after
//! cleaning, and the variants derived from them.

use globset::{Glob, GlobBuilder, GlobSet, GlobSetBuilder};
use vstd::prelude::*;
use vstd::string::*;

verus! {

/// `globset::Glob`: one parsed pattern. Nothing inside it is visible here.
#[verifier::external_type_specification]
#[verifier::external_body]
pub struct ExGlob(Glob);

/// `globset::GlobSet`: a compiled set of patterns. Nothing inside it is visible here.
#[verifier::external_type_specification]
#[verifier::external_body]
pub struct ExGlobSet(GlobSet);

/// `globset::GlobSetBuilder`: patterns on their way into a set. Nothing inside it is visible here.
#[verifier::external_type_specification]
#[verifier::external_body]
pub struct ExGlobSetBuilder(GlobSetBuilder);

/// `globset::Error`: why a pattern or a set was refused. Nothing inside it is visible here.
#[verifier::external_type_specification]
#[verifier::external_body]
pub struct ExGlobError(globset::Error);

/// Whether the glob parser accepts the pattern text.
pub uninterp spec fn glob_parses(pattern: Seq<char>) -> bool;

/// The pattern text that a parsed glob was made from.
pub uninterp spec fn glob_source(glob: Glob) -> Seq<char>;

/// Whether a parsed glob takes separators literally: only a `/` of the
/// pattern matches a `/` of a path, so `*` and `?` stay within one component.
pub uninterp spec fn glob_separator_literal(glob: Glob) -> bool;

/// The pattern that a glob error blames, if it blames one.
pub uninterp spec fn failed_glob(error: globset::Error) -> Option<Seq<char>>;

/// The pattern texts that a builder holds, in the order they were added.
/// Every glob in a builder takes separators literally.
pub uninterp spec fn builder_globs(builder: GlobSetBuilder) -> Seq<Seq<char>>;

/// Whether `GlobSetBuilder::build` succeeds on globs with these pattern
/// texts that take separators literally.
pub uninterp spec fn set_builds(patterns: Seq<Seq<char>>) -> bool;

/// The pattern texts that a built set holds.
pub uninterp spec fn set_globs(set: GlobSet) -> Seq<Seq<char>>;

/// Whether a set built from globs with these pattern texts, which take
/// separators literally, matches the path.
pub uninterp spec fn globs_match(patterns: Seq<Seq<char>>, path: Seq<char>) -> bool;

/// The text of each string of a sequence.
pub open spec fn texts(strings: Seq<String>) -> Seq<Seq<char>> {
    Seq::new(strings.len(), |i: int| strings[i]@)
}

/// The text of each string slice of a sequence.
pub open spec fn slice_texts(strings: Seq<&'static str>) -> Seq<Seq<char>> {
    Seq::new(strings.len(), |i: int| strings[i]@)
}

/// The characters that Unicode gives the property White_Space.
pub open spec fn is_whitespace(c: char) -> bool {
    let n = c as u32;
    ||| 0x09 <= n <= 0x0D
    ||| n == 0x20
    ||| n == 0x85
    ||| n == 0xA0
    ||| n == 0x1680
    ||| 0x2000 <= n <= 0x200A
    ||| n == 0x2028
    ||| n == 0x2029
    ||| n == 0x202F
    ||| n == 0x205F
    ||| n == 0x3000
}

/// The text without its leading whitespace.
pub open spec fn trim_start(s: Seq<char>) -> Seq<char>
    decreases s.len(),
{
    if s.len() > 0 && is_whitespace(s[0]) {
        trim_start(s.drop_first())
    } else {
        s
    }
}

/// The text without its trailing whitespace.
pub open spec fn trim_end(s: Seq<char>) -> Seq<char>
    decreases s.len(),
{
    if s.len() > 0 && is_whitespace(s.last()) {
        trim_end(s.drop_last())
    } else {
        s
    }
}

/// The text without one trailing `/`, if it ends in one.
pub open spec fn strip_separator(s: Seq<char>) -> Seq<char> {
    if s.len() > 0 && s.last() == '/' {
        s.drop_last()
    } else {
        s
    }
}

/// A user pattern as it is registered: surrounding whitespace removed, then
/// one trailing separator.
pub open spec fn clean_pattern(pattern: Seq<char>) -> Seq<char> {
    strip_separator(trim_end(trim_start(pattern)))
}

/// Whether the text holds one of the glob metacharacters `*`, `?`, `[`.
pub open spec fn has_wildcard(s: Seq<char>) -> bool {
    s.contains('*') || s.contains('?') || s.contains('[')
}

/// The prefix that lets a rule match at any depth.
pub open spec fn any_depth_prefix() -> Seq<char> {
    seq!['*', '*', '/']
}

/// The suffix that lets a rule match everything below a directory.
pub open spec fn subtree_suffix() -> Seq<char> {
    seq!['/', '*', '*']
}

/// The rules that one user pattern contributes: nothing if it is empty after
/// cleaning; else the cleaned pattern, its any-depth variant if it names no
/// separator, and its subtree variant if it is a literal name as well.
pub open spec fn pattern_rules(pattern: Seq<char>) -> Seq<Seq<char>> {
    let clean = clean_pattern(pattern);
    if clean.len() == 0 {
        seq![]
    } else if clean.contains('/') {
        seq![clean]
    } else if has_wildcard(clean) {
        seq![clean, any_depth_prefix() + clean]
    } else {
        seq![clean, any_depth_prefix() + clean, any_depth_prefix() + clean + subtree_suffix()]
    }
}

/// The rules of a sequence of patterns, in their order.
pub open spec fn user_rules(patterns: Seq<Seq<char>>) -> Seq<Seq<char>>
    decreases patterns.len(),
{
    if patterns.len() == 0 {
        seq![]
    } else {
        user_rules(patterns.drop_last()) + pattern_rules(patterns.last())
    }
}

/// The built-in globs: extensions of binary, media and archive formats.
pub open spec fn default_ignores() -> Seq<Seq<char>> {
    slice_texts(
        seq![
            "*.exe", "*.dll", "*.so", "*.dylib", "*.bin", "*.dat", "*.jar", "*.o", "*.a", "*.lib",
            "*.zip", "*.tar*", "*.gz", "*.bz2", "*.xz", "*.7z", "*.rar", "*.deb", "*.rpm", "*.jpg",
            "*.jpeg", "*.png", "*.gif", "*.bmp", "*.svg", "*.ico", "*.webp", "*.psd", "*.tiff",
            "*.mp3", "*.wav", "*.ogg", "*.m4a", "*.flac", "*.aac", "*.mp4", "*.avi", "*.mkv",
            "*.mov", "*.wmv", "*.flv", "*.webm", "*.ppt*", "*.ods", "*.odp", "*.sys", "*.dmp",
            "*.pak", "*.cab",
        ],
    )
}

/// The built-in rules: each built-in glob with the variants that a pattern
/// of its shape gets, so that it matches at any depth.
pub open spec fn default_rules() -> Seq<Seq<char>> {
    user_rules(default_ignores())
}

/// Every rule of the matcher: the built-in ones first, then the user's.
pub open spec fn ignore_rules(patterns: Seq<Seq<char>>) -> Seq<Seq<char>> {
    default_rules() + user_rules(patterns)
}

/// Whether every rule parses as a glob.
pub open spec fn all_parse(rules: Seq<Seq<char>>) -> bool {
    forall|i: int| 0 <= i < rules.len() ==> glob_parses(#[trigger] rules[i])
}

/// Whether `index` is the first rule that does not parse.
pub open spec fn first_invalid(rules: Seq<Seq<char>>, index: int) -> bool {
    &&& 0 <= index < rules.len()
    &&& !glob_parses(rules[index])
    &&& all_parse(rules.take(index))
}

/// Calls `GlobBuilder::new`, `GlobBuilder::literal_separator` and
/// `GlobBuilder::build`. The contract says that it succeeds exactly on the
/// patterns that the parser accepts, whatever the option; that the glob
/// keeps the pattern text and the option; and that a failure blames the
/// pattern it was given.
#[verifier::external_body]
fn parse_glob(pattern: &str, literal_separator: bool) -> (r: Result<Glob, globset::Error>)
    ensures
        r is Ok <==> glob_parses(pattern@),
        r is Ok ==> glob_source(r->Ok_0) == pattern@,
        r is Ok ==> glob_separator_literal(r->Ok_0) == literal_separator,
        r is Err ==> failed_glob(r->Err_0) == Some(pattern@),
{
    GlobBuilder::new(pattern).literal_separator(literal_separator).build()
}

/// Calls `GlobSetBuilder::new`. The contract says that the builder is empty.
#[verifier::external_body]
fn new_builder() -> (r: GlobSetBuilder)
    ensures
        builder_globs(r) == Seq::<Seq<char>>::empty(),
{
    GlobSetBuilder::new()
}

/// Calls `GlobSetBuilder::add`, here only with globs that take separators
/// literally. The contract says that the glob is appended to what the
/// builder holds.
#[verifier::external_body]
fn add_glob(builder: &mut GlobSetBuilder, glob: Glob)
    requires
        glob_separator_literal(glob),
    ensures
        builder_globs(*final(builder)) == builder_globs(*old(builder)).push(glob_source(glob)),
{
    builder.add(glob);
}

/// Calls `GlobSetBuilder::build`. The contract says that whether it succeeds
/// depends on the globs alone and that the set holds the builder's globs.
#[verifier::external_body]
fn build_set(builder: &GlobSetBuilder) -> (r: Result<GlobSet, globset::Error>)
    ensures
        r is Ok <==> set_builds(builder_globs(*builder)),
        r is Ok ==> set_globs(r->Ok_0) == builder_globs(*builder),
{
    builder.build()
}

/// Calls `GlobSet::is_match`. The contract says that the answer depends on
/// the set's globs and the path alone.
#[verifier::external_body]
fn set_is_match(set: &GlobSet, path: &str) -> (r: bool)
    ensures
        r == globs_match(set_globs(*set), path@),
{
    set.is_match(path)
}

/// Calls `globset::Error::glob`. The contract says that it returns the
/// pattern that the error blames.
#[verifier::external_body]
fn error_pattern(error: &globset::Error) -> (r: Option<String>)
    ensures
        r is Some <==> failed_glob(*error) is Some,
        r is Some ==> r->Some_0@ == failed_glob(*error)->Some_0,
{
    error.glob().map(|g| g.to_string())
}

/// Calls the `Display` impl of `globset::Error` for the parser's message.
#[verifier::external_body]
fn error_text(error: &globset::Error) -> (r: String) {
    error.to_string()
}

/// Calls `str::trim`. The contract says that the result is the text without
/// its leading and trailing Unicode whitespace.
#[verifier::external_body]
fn trimmed(s: &str) -> (r: &str)
    ensures
        r@ == trim_end(trim_start(s@)),
{
    s.trim()
}

/// Why an ignore matcher could not be built.
#[derive(Debug)]
pub enum ConfigError {
    /// A rule is no valid glob, or the rules together could not be compiled.
    /// `pattern` is what the glob parser blames, where it blames anything;
    /// `message` is its own report.
    InvalidGlobPattern { pattern: Option<String>, message: String },
}

impl ConfigError {
    /// What the glob parser blames, if anything.
    pub open spec fn offending(&self) -> Option<Seq<char>> {
        match self {
            ConfigError::InvalidGlobPattern { pattern, .. } => match pattern {
                Some(p) => Some(p@),
                None => None,
            },
        }
    }

    /// The parser's report, as the matcher's builder received it.
    pub open spec fn detail(&self) -> Seq<char> {
        match self {
            ConfigError::InvalidGlobPattern { message, .. } => message@,
        }
    }

    /// The text of the error: a fixed heading, then the parser's report.
    pub open spec fn message_text(&self) -> Seq<char> {
        "Invalid glob pattern: "@ + self.detail()
    }

    /// Renders the error for a reader.
    pub fn message(&self) -> (r: String)
        ensures
            r@ == self.message_text(),
    {
        match self {
            ConfigError::InvalidGlobPattern { message, .. } => {
                let mut out = String::from_str("Invalid glob pattern: ");
                out.append(message.as_str());
                out
            },
        }
    }

    fn from_glob_error(error: globset::Error) -> (r: ConfigError)
        ensures
            r.offending() == failed_glob(error),
    {
        let pattern = error_pattern(&error);
        let message = error_text(&error);
        ConfigError::InvalidGlobPattern { pattern, message }
    }
}

/// A compiled ignore matcher. Once built it never changes, and whether it
/// matches a path depends on its rules and the path alone.
#[derive(Debug)]
pub struct IgnoreSet {
    set: GlobSet,
}

impl IgnoreSet {
    /// The rules that the matcher was compiled from, in order.
    pub closed spec fn rules(&self) -> Seq<Seq<char>> {
        set_globs(self.set)
    }

    /// Whether the matcher matches the path.
    pub open spec fn matches(&self, path: Seq<char>) -> bool {
        globs_match(self.rules(), path)
    }

    /// Tests a path, given relative to the root of a scan, against the rules.
    pub fn is_match(&self, path: &str) -> (r: bool)
        ensures
            r == self.matches(path@),
    {
        set_is_match(&self.set, path)
    }
}

/// Whether the text holds the character.
pub fn contains_char(s: &str, c: char) -> (r: bool)
    ensures
        r == s@.contains(c),
{
    let n = s.unicode_len();
    let mut i: usize = 0;
    while i < n
        invariant
            i <= n,
            n == s@.len(),
            forall|j: int| 0 <= j < i ==> s@[j] != c,
        decreases n - i,
    {
        if s.get_char(i) == c {
            return true;
        }
        i += 1;
    }
    false
}

/// Cleans one user pattern: trims whitespace, then strips one trailing `/`.
pub fn clean(pattern: &str) -> (r: &str)
    ensures
        r@ == clean_pattern(pattern@),
{
    let t = trimmed(pattern);
    let n = t.unicode_len();
    if n > 0 && t.get_char(n - 1) == '/' {
        t.substring_char(0, n - 1)
    } else {
        t
    }
}

/// The built-in globs, as text.
pub fn default_ignore_globs() -> (r: Vec<&'static str>)
    ensures
        slice_texts(r@) == default_ignores(),
{
    let r = vec![
        "*.exe", "*.dll", "*.so", "*.dylib", "*.bin", "*.dat", "*.jar", "*.o", "*.a", "*.lib",
        "*.zip", "*.tar*", "*.gz", "*.bz2", "*.xz", "*.7z", "*.rar", "*.deb", "*.rpm", "*.jpg",
        "*.jpeg", "*.png", "*.gif", "*.bmp", "*.svg", "*.ico", "*.webp", "*.psd", "*.tiff",
        "*.mp3", "*.wav", "*.ogg", "*.m4a", "*.flac", "*.aac", "*.mp4", "*.avi", "*.mkv",
        "*.mov", "*.wmv", "*.flv", "*.webm", "*.ppt*", "*.ods", "*.odp", "*.sys", "*.dmp",
        "*.pak", "*.cab",
    ];
    assert(slice_texts(r@) =~= default_ignores());
    r
}

/// Appends to `rules` what one user pattern contributes.
pub fn push_pattern_rules(rules: &mut Vec<String>, pattern: &str)
    ensures
        texts(final(rules)@) == texts(old(rules)@) + pattern_rules(pattern@),
{
    let c = clean(pattern);
    if c.unicode_len() == 0 {
        assert(texts(rules@) =~= texts(old(rules)@) + pattern_rules(pattern@));
        return ;
    }
    proof {
        reveal_strlit("**/");
        reveal_strlit("/**");
    }
    rules.push(String::from_str(c));
    if !contains_char(c, '/') {
        let mut deep = String::from_str("**/");
        deep.append(c);
        assert(deep@ =~= any_depth_prefix() + c@);
        if !contains_char(c, '*') && !contains_char(c, '?') && !contains_char(c, '[') {
            let mut below = deep.clone();
            below.append("/**");
            assert(below@ =~= any_depth_prefix() + c@ + subtree_suffix());
            rules.push(deep);
            rules.push(below);
        } else {
            rules.push(deep);
        }
    }
    assert(texts(rules@) =~= texts(old(rules)@) + pattern_rules(pattern@));
}

/// Lists every rule of the matcher for the given user patterns: the rules of
/// the built-in globs, then each pattern's own.
pub fn expand_patterns(patterns: &[String]) -> (r: Vec<String>)
    ensures
        texts(r@) == ignore_rules(texts(patterns@)),
{
    let defaults = default_ignore_globs();
    let mut rules: Vec<String> = Vec::new();
    let mut i: usize = 0;
    assert(slice_texts(defaults@).take(0) =~= Seq::<Seq<char>>::empty());
    assert(texts(rules@) =~= user_rules(slice_texts(defaults@).take(0)));
    while i < defaults.len()
        invariant
            i <= defaults.len(),
            texts(rules@) == user_rules(slice_texts(defaults@).take(i as int)),
        decreases defaults.len() - i,
    {
        push_pattern_rules(&mut rules, defaults[i]);
        proof {
            let next = slice_texts(defaults@).take(i + 1);
            assert(next.drop_last() =~= slice_texts(defaults@).take(i as int));
            assert(next.last() == defaults@[i as int]@);
        }
        i += 1;
    }
    assert(slice_texts(defaults@).take(i as int) =~= default_ignores());
    let mut k: usize = 0;
    assert(texts(patterns@).take(0) =~= Seq::<Seq<char>>::empty());
    assert(texts(rules@) =~= default_rules() + user_rules(texts(patterns@).take(0)));
    while k < patterns.len()
        invariant
            k <= patterns.len(),
            texts(rules@) == default_rules() + user_rules(texts(patterns@).take(k as int)),
        decreases patterns.len() - k,
    {
        push_pattern_rules(&mut rules, patterns[k].as_str());
        proof {
            let next = texts(patterns@).take(k + 1);
            assert(next.drop_last() =~= texts(patterns@).take(k as int));
            assert(next.last() == patterns@[k as int]@);
            assert(texts(rules@) =~= default_rules() + user_rules(next));
        }
        k += 1;
    }
    assert(texts(patterns@).take(k as int) =~= texts(patterns@));
    rules
}

/// What compiling `rules` gives: the matcher over exactly these rules when
/// every rule parses and the set compiles; else an error, which names the
/// first rule that does not parse where there is one.
pub open spec fn compile_outcome(rules: Seq<Seq<char>>, r: Result<IgnoreSet, ConfigError>) -> bool {
    match r {
        Ok(set) => all_parse(rules) && set_builds(rules) && set.rules() == rules,
        Err(e) => {
            ||| exists|i: int| #[trigger] first_invalid(rules, i) && e.offending() == Some(rules[i])
            ||| all_parse(rules) && !set_builds(rules)
        },
    }
}

/// Compiles the ignore matcher for the given user patterns. The built-in
/// rules are always part of it and come first.
pub fn build_ignore_set(patterns: &[String]) -> (r: Result<IgnoreSet, ConfigError>)
    ensures
        compile_outcome(ignore_rules(texts(patterns@)), r),
{
    let rules = expand_patterns(patterns);
    let mut builder = new_builder();
    let mut i: usize = 0;
    while i < rules.len()
        invariant
            i <= rules.len(),
            texts(rules@) == ignore_rules(texts(patterns@)),
            builder_globs(builder) == texts(rules@).take(i as int),
            all_parse(texts(rules@).take(i as int)),
        decreases rules.len() - i,
    {
        match parse_glob(rules[i].as_str(), true) {
            Ok(glob) => {
                add_glob(&mut builder, glob);
            },
            Err(e) => {
                let error = ConfigError::from_glob_error(e);
                assert(first_invalid(texts(rules@), i as int) && error.offending() == Some(
                    texts(rules@)[i as int],
                ));
                return Err(error);
            },
        }
        assert(texts(rules@).take(i + 1) =~= texts(rules@).take(i as int).push(rules@[i as int]@));
        i += 1;
    }
    assert(texts(rules@).take(i as int) =~= texts(rules@));
    match build_set(&builder) {
        Ok(set) => Ok(IgnoreSet { set }),
        Err(e) => Err(ConfigError::from_glob_error(e)),
    }
}

/// Compiling is total on valid input: where every rule of the patterns parses
/// and the set compiles, any outcome that meets the contract of
/// `build_ignore_set` is a matcher.
pub proof fn lemma_compile_succeeds_on_valid(
    patterns: Seq<Seq<char>>,
    r: Result<IgnoreSet, ConfigError>,
)
    requires
        all_parse(ignore_rules(patterns)),
        set_builds(ignore_rules(patterns)),
        compile_outcome(ignore_rules(patterns), r),
    ensures
        r is Ok,
{
    let rules = ignore_rules(patterns);
    if r is Err {
        let i = choose|i: int| first_invalid(rules, i);
        assert(glob_parses(rules[i]));
    }
}

/// Compiling is deterministic: two matchers compiled from the same patterns
/// hold the same rules and agree on every path.
pub proof fn lemma_compile_deterministic(
    patterns: Seq<Seq<char>>,
    a: IgnoreSet,
    b: IgnoreSet,
    path: Seq<char>,
)
    requires
        compile_outcome(ignore_rules(patterns), Ok(a)),
        compile_outcome(ignore_rules(patterns), Ok(b)),
    ensures
        a.rules() == b.rules(),
        a.matches(path) == b.matches(path),
{
}

} // verus!
