//! Path normalisation, the text/binary classifier, and the collector that
//! assembles the annotated output one accepted file at a time.

use crate::config::{
    all_parse, build_ignore_set, compile_outcome, globs_match, ignore_rules, set_builds, texts,
    ConfigError, IgnoreSet,
};
use vstd::prelude::*;
use vstd::slice::slice_subrange;
use vstd::string::*;
use vstd::utf8::{decode_utf8, valid_utf8};

verus! {

/// How many leading bytes of a file are searched for a null byte.
pub const NULL_SCAN_LEN: usize = 1024;

/// How many leading bytes of a file must decode as UTF-8.
pub const TEXT_SAMPLE_LEN: usize = 512;

/// The share of printable characters, in percent, that a text sample must exceed.
pub const PRINTABLE_PERCENT: usize = 85;

/// The longest content that can be decoded into a section.
pub const MAX_CONTENT_LEN: usize = usize::MAX / 4;

/// The components of a path: the runs between its `/` separators, empty runs
/// included.
pub open spec fn components(path: Seq<char>) -> Seq<Seq<char>>
    decreases path.len(),
{
    if path.len() == 0 {
        seq![Seq::empty()]
    } else {
        let before = components(path.drop_last());
        if path.last() == '/' {
            before.push(Seq::empty())
        } else {
            before.drop_last().push(before.last().push(path.last()))
        }
    }
}

/// Whether a component stays in a normalised path: it is neither empty nor
/// the current directory `.`.
pub open spec fn is_kept(component: Seq<char>) -> bool {
    component.len() > 0 && component != seq!['.']
}

/// The kept components, in order, with one `/` between neighbours.
pub open spec fn join_kept(parts: Seq<Seq<char>>) -> Seq<char>
    decreases parts.len(),
{
    if parts.len() == 0 {
        Seq::empty()
    } else {
        let head = join_kept(parts.drop_last());
        if !is_kept(parts.last()) {
            head
        } else if head.len() == 0 {
            parts.last()
        } else {
            head + seq!['/'] + parts.last()
        }
    }
}

/// The leading `/` of an absolute path, or nothing.
pub open spec fn root_of(path: Seq<char>) -> Seq<char> {
    if path.len() > 0 && path[0] == '/' {
        seq!['/']
    } else {
        Seq::empty()
    }
}

/// A path without its current-directory components and without empty ones.
pub open spec fn normalized(path: Seq<char>) -> Seq<char> {
    root_of(path) + join_kept(components(path))
}

/// Normalises a path by removing its current-directory components. Repeated
/// and trailing separators go with them; a leading `/` and `..` stay.
pub fn normalize_path(path: &str) -> (r: String)
    ensures
        r@ == normalized(path@),
{
    let n = path.unicode_len();
    let mut out = String::new();
    proof {
        reveal_strlit("/");
    }
    if n > 0 && path.get_char(0) == '/' {
        out.append("/");
    }
    assert(out@ =~= root_of(path@));
    let mut joined_any = false;
    let mut start: usize = 0;
    let mut i: usize = 0;
    let ghost mut done: Seq<Seq<char>> = Seq::empty();
    assert(path@.take(0) =~= Seq::<char>::empty());
    assert(components(path@.take(0)) =~= done.push(path@.subrange(0, 0)));
    while i < n
        invariant
            n == path@.len(),
            start <= i <= n,
            components(path@.take(i as int)) == done.push(path@.subrange(start as int, i as int)),
            out@ == root_of(path@) + join_kept(done),
            joined_any == (join_kept(done).len() > 0),
            "/"@ == seq!['/'],
        decreases n - i,
    {
        let ghost cur = path@.subrange(start as int, i as int);
        let ch = path.get_char(i);
        proof {
            let next = path@.take(i + 1);
            assert(next.drop_last() =~= path@.take(i as int));
            assert(next.last() == ch);
            assert(done.push(cur).drop_last() =~= done);
            assert(done.push(cur).last() == cur);
        }
        if ch == '/' {
            let part = path.substring_char(start, i);
            let kept = is_kept_part(part);
            if kept {
                if joined_any {
                    out.append("/");
                }
                out.append(part);
                joined_any = true;
            }
            proof {
                assert(out@ =~= root_of(path@) + join_kept(done.push(cur)));
                done = done.push(cur);
                assert(path@.subrange(i + 1, i + 1) =~= Seq::<char>::empty());
            }
            start = i + 1;
        } else {
            assert(cur.push(ch) =~= path@.subrange(start as int, i + 1));
        }
        i += 1;
    }
    assert(path@.take(n as int) =~= path@);
    let part = path.substring_char(start, n);
    if is_kept_part(part) {
        if joined_any {
            out.append("/");
        }
        out.append(part);
    }
    proof {
        let cur = path@.subrange(start as int, n as int);
        assert(done.push(cur).drop_last() =~= done);
        assert(out@ =~= root_of(path@) + join_kept(done.push(cur)));
    }
    out
}

/// Whether a component stays in a normalised path.
fn is_kept_part(part: &str) -> (r: bool)
    ensures
        r == is_kept(part@),
{
    let n = part.unicode_len();
    if n == 0 {
        false
    } else if n == 1 {
        let c = part.get_char(0);
        assert(part@ =~= seq![c]);
        assert(seq!['.'][0] == '.');
        c != '.'
    } else {
        assert(seq!['.'].len() == 1);
        true
    }
}

/// A printable character: ASCII graphic, or ASCII whitespace (space, tab,
/// line feed, form feed, carriage return).
pub open spec fn is_printable(c: char) -> bool {
    ('!' <= c && c <= '~') || c == ' ' || c == '\t' || c == '\n' || c == '\x0C' || c == '\r'
}

/// How many characters of the text are printable.
pub open spec fn printable_count(text: Seq<char>) -> nat
    decreases text.len(),
{
    if text.len() == 0 {
        0
    } else {
        printable_count(text.drop_last()) + if is_printable(text.last()) {
            1nat
        } else {
            0nat
        }
    }
}

/// Whether the printable share of the text's characters exceeds the threshold.
pub open spec fn mostly_printable(text: Seq<char>) -> bool {
    100 * printable_count(text) > PRINTABLE_PERCENT * text.len()
}

/// The first `limit` items of a sequence, or all of it if it is shorter.
pub open spec fn leading<T>(s: Seq<T>, limit: int) -> Seq<T> {
    if s.len() <= limit {
        s
    } else {
        s.take(limit)
    }
}

/// The classifier on a file's leading bytes: the file is not empty, no null
/// byte stands in the scanned window, the text window is valid UTF-8, and
/// more than the threshold share of its characters is printable.
pub open spec fn looks_like_text(sample: Seq<u8>) -> bool {
    &&& sample.len() > 0
    &&& !leading(sample, NULL_SCAN_LEN as int).contains(0u8)
    &&& valid_utf8(leading(sample, TEXT_SAMPLE_LEN as int))
    &&& mostly_printable(decode_utf8(leading(sample, TEXT_SAMPLE_LEN as int)))
}

/// Calls `std::str::from_utf8`. The contract says that it succeeds exactly
/// on valid UTF-8 and that the text is what the bytes decode to.
#[verifier::external_body]
fn utf8_text(bytes: &[u8]) -> (r: Option<&str>)
    ensures
        r is Some <==> valid_utf8(bytes@),
        r is Some ==> r->Some_0@ == decode_utf8(bytes@),
{
    std::str::from_utf8(bytes).ok()
}

/// Whether the character is printable.
pub fn is_printable_char(c: char) -> (r: bool)
    ensures
        r == is_printable(c),
{
    ('!' <= c && c <= '~') || c == ' ' || c == '\t' || c == '\n' || c == '\x0C' || c == '\r'
}

/// Classifies a file by its leading bytes. `sample` is the start of the
/// file: all of it, or at least its first `NULL_SCAN_LEN` bytes.
pub fn is_readable_text(sample: &[u8]) -> (r: bool)
    ensures
        r == looks_like_text(sample@),
        sample@.len() == 0 ==> !r,
        leading(sample@, NULL_SCAN_LEN as int).contains(0u8) ==> !r,
{
    let n = sample.len();
    if n == 0 {
        return false;
    }
    let scan = if n < NULL_SCAN_LEN { n } else { NULL_SCAN_LEN };
    let ghost window = leading(sample@, NULL_SCAN_LEN as int);
    let mut i: usize = 0;
    while i < scan
        invariant
            i <= scan <= n,
            n == sample@.len(),
            window == leading(sample@, NULL_SCAN_LEN as int),
            window.len() == scan,
            forall|j: int| 0 <= j < scan ==> window[j] == sample@[j],
            forall|j: int| 0 <= j < i ==> sample@[j] != 0u8,
        decreases scan - i,
    {
        if sample[i] == 0 {
            assert(window[i as int] == 0u8);
            return false;
        }
        i += 1;
    }
    let m = if n < TEXT_SAMPLE_LEN { n } else { TEXT_SAMPLE_LEN };
    let head = slice_subrange(sample, 0, m);
    assert(head@ =~= leading(sample@, TEXT_SAMPLE_LEN as int));
    match utf8_text(head) {
        None => false,
        Some(text) => {
            let len = text.unicode_len();
            let mut printable: usize = 0;
            let mut k: usize = 0;
            assert(text@.take(0) =~= Seq::<char>::empty());
            while k < len
                invariant
                    k <= len,
                    len == text@.len(),
                    printable == printable_count(text@.take(k as int)),
                    printable <= k,
                decreases len - k,
            {
                let c = text.get_char(k);
                proof {
                    assert(text@.take(k + 1).drop_last() =~= text@.take(k as int));
                    assert(text@.take(k + 1).last() == c);
                }
                if is_printable_char(c) {
                    printable += 1;
                }
                k += 1;
            }
            assert(text@.take(len as int) =~= text@);
            proof {
                lemma_decoded_len(head@);
            }
            100 * printable > PRINTABLE_PERCENT * len
        },
    }
}

/// Valid UTF-8 never decodes to more characters than it has bytes.
pub proof fn lemma_decoded_len(bytes: Seq<u8>)
    requires
        valid_utf8(bytes),
    ensures
        decode_utf8(bytes).len() <= bytes.len(),
    decreases bytes.len(),
{
    if bytes.len() > 0 {
        lemma_decoded_len(vstd::utf8::pop_first_scalar(bytes));
    }
}

/// An empty file is never text.
pub proof fn lemma_empty_is_not_text()
    ensures
        !looks_like_text(Seq::<u8>::empty()),
{
}

/// A null byte among the scanned leading bytes makes a file non-text,
/// whatever the rest holds.
pub proof fn lemma_null_byte_is_not_text(sample: Seq<u8>, at: int)
    requires
        0 <= at < sample.len(),
        at < NULL_SCAN_LEN,
        sample[at] == 0u8,
    ensures
        !looks_like_text(sample),
{
    assert(leading(sample, NULL_SCAN_LEN as int)[at] == 0u8);
}

/// A file whose text window decodes with a printable share at or under the
/// threshold is non-text.
pub proof fn lemma_low_printable_share_is_not_text(sample: Seq<u8>)
    requires
        valid_utf8(leading(sample, TEXT_SAMPLE_LEN as int)),
        100 * printable_count(decode_utf8(leading(sample, TEXT_SAMPLE_LEN as int)))
            <= PRINTABLE_PERCENT * decode_utf8(leading(sample, TEXT_SAMPLE_LEN as int)).len(),
    ensures
        !looks_like_text(sample),
{
}

/// Only the scanned leading bytes decide: a file classifies as its first
/// `NULL_SCAN_LEN` bytes do.
pub proof fn lemma_leading_bytes_decide(sample: Seq<u8>)
    ensures
        looks_like_text(leading(sample, NULL_SCAN_LEN as int)) == looks_like_text(sample),
{
    let head = leading(sample, NULL_SCAN_LEN as int);
    assert(leading(head, NULL_SCAN_LEN as int) =~= leading(sample, NULL_SCAN_LEN as int));
    assert(leading(head, TEXT_SAMPLE_LEN as int) =~= leading(sample, TEXT_SAMPLE_LEN as int));
}

/// What decoding the bytes as UTF-8 gives, byte order marks sniffed and
/// malformed sequences replaced.
pub uninterp spec fn decoded_text(bytes: Seq<u8>) -> Seq<char>;

/// Calls `encoding_rs::Encoding::decode` on `UTF_8`. The contract says that
/// the text depends on the bytes alone.
#[verifier::external_body]
fn decode_lossy(bytes: &[u8]) -> (r: String)
    requires
        bytes@.len() <= MAX_CONTENT_LEN,
    ensures
        r@ == decoded_text(bytes@),
{
    let (text, _, _) = encoding_rs::UTF_8.decode(bytes);
    text.into_owned()
}

/// What opens a section's header line.
pub open spec fn header_open() -> Seq<char> {
    seq!['=', '=', '=', '=', ' ']
}

/// What closes a section's header line, the line break included.
pub open spec fn header_close() -> Seq<char> {
    seq![' ', '=', '=', '=', '=', '\n']
}

/// What ends a section: the blank line after the content.
pub open spec fn section_end() -> Seq<char> {
    seq!['\n', '\n']
}

/// The section of one file: the header line with the file's path, the
/// decoded content, and a blank line.
pub open spec fn section(path: Seq<char>, text: Seq<char>) -> Seq<char> {
    header_open() + path + header_close() + text + section_end()
}

/// In a section the path stands verbatim between the header's marks and the
/// content verbatim between the header line and the closing blank line.
pub proof fn lemma_section_layout(path: Seq<char>, text: Seq<char>)
    ensures
        section(path, text).len() == path.len() + text.len() + 13,
        section(path, text).subrange(0, 5) == header_open(),
        section(path, text).subrange(5, path.len() as int + 5) == path,
        section(path, text).subrange(path.len() as int + 5, path.len() as int + 11)
            == header_close(),
        section(path, text).subrange(
            path.len() as int + 11,
            path.len() as int + 11 + text.len() as int,
        ) == text,
        section(path, text).subrange(
            path.len() as int + 11 + text.len() as int,
            path.len() as int + 13 + text.len() as int,
        ) == section_end(),
{
    let s = section(path, text);
    let p = path.len() as int;
    let t = text.len() as int;
    assert(s.subrange(0, 5) =~= header_open());
    assert(s.subrange(5, p + 5) =~= path);
    assert(s.subrange(p + 5, p + 11) =~= header_close());
    assert(s.subrange(p + 11, p + 11 + t) =~= text);
    assert(s.subrange(p + 11 + t, p + 13 + t) =~= section_end());
}

/// Formats the section of one file.
pub fn format_section(path: &str, text: &str) -> (r: String)
    ensures
        r@ == section(path@, text@),
{
    proof {
        reveal_strlit("==== ");
        reveal_strlit(" ====\n");
        reveal_strlit("\n\n");
    }
    let mut out = String::from_str("==== ");
    out.append(path);
    out.append(" ====\n");
    out.append(text);
    out.append("\n\n");
    assert(out@ =~= section(path@, text@));
    out
}

/// Why a collection produced no output.
#[derive(Debug)]
pub enum CollectError {
    /// The ignore matcher could not be built.
    InvalidPattern(ConfigError),
    /// A root path does not exist; it is named.
    PathNotFound(String),
    /// Every root was walked and no file qualified.
    NoReadableFiles,
}

impl CollectError {
    /// The text of the error.
    pub open spec fn message_text(&self) -> Seq<char> {
        match self {
            CollectError::InvalidPattern(e) => e.message_text(),
            CollectError::PathNotFound(path) => "Path not found: "@ + path@,
            CollectError::NoReadableFiles => "No readable text files found"@,
        }
    }

    /// Renders the error for a reader.
    pub fn message(&self) -> (r: String)
        ensures
            r@ == self.message_text(),
    {
        match self {
            CollectError::InvalidPattern(e) => e.message(),
            CollectError::PathNotFound(path) => {
                let mut out = String::from_str("Path not found: ");
                out.append(path.as_str());
                out
            },
            CollectError::NoReadableFiles => String::from_str("No readable text files found"),
        }
    }
}

/// Whether a component of the path ends at `end`: the path ends there, or a
/// separator follows.
pub open spec fn is_boundary(path: Seq<char>, end: int) -> bool {
    0 <= end <= path.len() && (end == path.len() || path[end] == '/')
}

/// Whether the rules leave an entry out: a rule matches its normalised
/// relative path, or a directory above it, whose whole subtree goes with it.
pub open spec fn rules_skip(rules: Seq<Seq<char>>, relative: Seq<char>) -> bool {
    exists|end: int|
        is_boundary(normalized(relative), end) && globs_match(
            rules,
            #[trigger] normalized(relative).take(end),
        )
}

/// The state of one collection: the compiled ignore matcher, which never
/// changes, and the output so far, which only grows.
#[derive(Debug)]
pub struct FileCollector {
    ignore: IgnoreSet,
    output: String,
}

impl FileCollector {
    /// The ignore matcher.
    pub closed spec fn matcher(&self) -> IgnoreSet {
        self.ignore
    }

    /// The output assembled so far.
    pub closed spec fn text(&self) -> Seq<char> {
        self.output@
    }

    /// Whether an entry with this path, relative to its root, is skipped:
    /// an ignore rule matches it or a directory above it.
    pub open spec fn ignores(&self, relative: Seq<char>) -> bool {
        rules_skip(self.matcher().rules(), relative)
    }

    /// Whether an entry enters the output: it is a regular file, it is not
    /// ignored, and its content classifies as text.
    pub open spec fn accepts(&self, relative: Seq<char>, is_file: bool, content: Seq<u8>) -> bool {
        is_file && !self.ignores(relative) && looks_like_text(content)
    }

    /// Starts a collection: compiles the ignore matcher for the patterns.
    /// The output is empty.
    pub fn new(ignore_patterns: &[String]) -> (r: Result<FileCollector, CollectError>)
        ensures
            match r {
                Ok(c) => compile_outcome(ignore_rules(texts(ignore_patterns@)), Ok(c.matcher()))
                    && c.text().len() == 0,
                Err(CollectError::InvalidPattern(e)) => compile_outcome(
                    ignore_rules(texts(ignore_patterns@)),
                    Err(e),
                ),
                Err(_) => false,
            },
    {
        match build_ignore_set(ignore_patterns) {
            Ok(ignore) => Ok(FileCollector { ignore, output: String::new() }),
            Err(e) => Err(CollectError::InvalidPattern(e)),
        }
    }

    /// The error for a root path that does not exist. The collection ends
    /// with it: no other root is walked.
    pub fn missing_root(path: &str) -> (r: CollectError)
        ensures
            r matches CollectError::PathNotFound(p) && p@ == path@,
    {
        CollectError::PathNotFound(String::from_str(path))
    }

    /// Decides whether a visited entry is skipped; a skipped directory is
    /// not descended into.
    pub fn is_ignored(&self, relative: &str) -> (r: bool)
        ensures
            r == self.ignores(relative@),
    {
        let normal = normalize_path(relative);
        let path = normal.as_str();
        let n = path.unicode_len();
        let ghost rules = self.matcher().rules();
        let mut end: usize = 0;
        while end < n
            invariant
                end <= n,
                n == path@.len(),
                path@ == normalized(relative@),
                rules == self.matcher().rules(),
                forall|k: int|
                    0 <= k < end && is_boundary(path@, k) ==> !globs_match(
                        rules,
                        #[trigger] path@.take(k),
                    ),
            decreases n - end,
        {
            if path.get_char(end) == '/' {
                let above = path.substring_char(0, end);
                assert(above@ =~= path@.take(end as int));
                if self.ignore.is_match(above) {
                    assert(is_boundary(path@, end as int));
                    return true;
                }
            }
            end += 1;
        }
        assert(path@.take(n as int) =~= path@);
        let whole = self.ignore.is_match(path);
        proof {
            if whole {
                assert(is_boundary(path@, n as int));
            }
        }
        whole
    }

    /// Decides whether a visited entry's leading bytes are to be read and
    /// classified: it is a regular file and not ignored.
    pub fn wants_sample(&self, relative: &str, is_file: bool) -> (r: bool)
        ensures
            r == (is_file && !self.ignores(relative@)),
    {
        is_file && !self.is_ignored(relative)
    }

    /// Appends the section of an accepted file: its path as given, and its
    /// content decoded.
    pub fn add_file(&mut self, path: &str, content: &[u8])
        requires
            content@.len() <= MAX_CONTENT_LEN,
        ensures
            final(self).text() == old(self).text() + section(path@, decoded_text(content@)),
            final(self).matcher() == old(self).matcher(),
    {
        let text = decode_lossy(content);
        let part = format_section(path, text.as_str());
        self.output.append(part.as_str());
    }

    /// Handles one visited entry whose content is at hand: appends its
    /// section if the entry is accepted, and says whether it was.
    pub fn offer_file(&mut self, path: &str, relative: &str, is_file: bool, content: &[u8]) -> (r:
        bool)
        requires
            content@.len() <= MAX_CONTENT_LEN,
        ensures
            r == old(self).accepts(relative@, is_file, content@),
            r ==> final(self).text() == old(self).text() + section(
                path@,
                decoded_text(content@),
            ),
            !r ==> final(self).text() == old(self).text(),
            final(self).matcher() == old(self).matcher(),
    {
        if self.wants_sample(relative, is_file) && is_readable_text(content) {
            self.add_file(path, content);
            true
        } else {
            false
        }
    }

    /// Ends the collection: the output, or the error that no file qualified
    /// when the output is empty.
    pub fn finish(self) -> (r: Result<String, CollectError>)
        ensures
            self.text().len() == 0 ==> r == Err::<String, CollectError>(
                CollectError::NoReadableFiles,
            ),
            self.text().len() > 0 ==> r is Ok && r->Ok_0@ == self.text(),
    {
        if self.output.as_str().unicode_len() == 0 {
            Err(CollectError::NoReadableFiles)
        } else {
            Ok(self.output)
        }
    }
}

/// One entry that a walk visited: a file, a directory or something else.
#[derive(Debug)]
pub struct ScanEntry {
    /// The entry's path as it is to appear in the output.
    pub path: String,
    /// The entry's path relative to the root it was found under.
    pub relative: String,
    /// Whether the entry is a regular file.
    pub is_file: bool,
    /// The file's bytes; empty for what is no file or could not be read.
    pub content: Vec<u8>,
}

/// One root path and what a walk from it visited, in the walk's order. A
/// walk need not descend into a directory that the ignore rules match:
/// whatever lies below one is left out either way.
#[derive(Debug)]
pub struct ScanRoot {
    /// The root path as the caller gave it.
    pub path: String,
    /// Whether the path exists.
    pub exists: bool,
    /// The entries visited; none where the path does not exist.
    pub entries: Vec<ScanEntry>,
}

/// Whether an entry enters the output under these ignore rules: it is a
/// regular file, the rules do not leave it out, and its content classifies
/// as text.
pub open spec fn rules_accept(rules: Seq<Seq<char>>, entry: ScanEntry) -> bool {
    entry.is_file && !rules_skip(rules, entry.relative@) && looks_like_text(entry.content@)
}

/// What an entry adds to the output: its section, or nothing.
pub open spec fn entry_text(rules: Seq<Seq<char>>, entry: ScanEntry) -> Seq<char> {
    if rules_accept(rules, entry) {
        section(entry.path@, decoded_text(entry.content@))
    } else {
        Seq::empty()
    }
}

/// What a run of entries adds to the output: their sections in order.
pub open spec fn entries_text(rules: Seq<Seq<char>>, entries: Seq<ScanEntry>) -> Seq<char>
    decreases entries.len(),
{
    if entries.len() == 0 {
        Seq::empty()
    } else {
        entries_text(rules, entries.drop_last()) + entry_text(rules, entries.last())
    }
}

/// The output of a run of roots: what each root's entries add, in order.
pub open spec fn roots_text(rules: Seq<Seq<char>>, roots: Seq<ScanRoot>) -> Seq<char>
    decreases roots.len(),
{
    if roots.len() == 0 {
        Seq::empty()
    } else {
        roots_text(rules, roots.drop_last()) + entries_text(rules, roots.last().entries@)
    }
}

/// Whether every root exists.
pub open spec fn all_exist(roots: Seq<ScanRoot>) -> bool {
    forall|i: int| 0 <= i < roots.len() ==> (#[trigger] roots[i]).exists
}

/// Whether `index` is the first root that does not exist.
pub open spec fn first_missing(roots: Seq<ScanRoot>, index: int) -> bool {
    &&& 0 <= index < roots.len()
    &&& !roots[index].exists
    &&& all_exist(roots.take(index))
}

/// Whether every entry's content is short enough to be decoded.
pub open spec fn decodable(entries: Seq<ScanEntry>) -> bool {
    forall|i: int| 0 <= i < entries.len() ==> (#[trigger] entries[i]).content@.len() <= MAX_CONTENT_LEN
}

/// Whether every entry of every root is short enough to be decoded.
pub open spec fn all_decodable(roots: Seq<ScanRoot>) -> bool {
    forall|i: int| 0 <= i < roots.len() ==> decodable((#[trigger] roots[i]).entries@)
}

/// What a collection over `roots` under `rules` gives. The rules must
/// compile, else the pattern error; every root must exist, else the first
/// missing one is named and nothing is produced; some file must qualify,
/// else there is nothing readable. Otherwise: every accepted file's section,
/// in the order visited.
pub open spec fn collect_outcome(
    rules: Seq<Seq<char>>,
    roots: Seq<ScanRoot>,
    r: Result<String, CollectError>,
) -> bool {
    match r {
        Ok(output) => {
            &&& all_parse(rules) && set_builds(rules)
            &&& all_exist(roots)
            &&& output@ == roots_text(rules, roots)
            &&& output@.len() > 0
        },
        Err(CollectError::InvalidPattern(e)) => compile_outcome(rules, Err(e)),
        Err(CollectError::PathNotFound(path)) => {
            &&& all_parse(rules) && set_builds(rules)
            &&& exists|i: int| #[trigger] first_missing(roots, i) && path@ == roots[i].path@
        },
        Err(CollectError::NoReadableFiles) => {
            &&& all_parse(rules) && set_builds(rules)
            &&& all_exist(roots)
            &&& roots_text(rules, roots).len() == 0
        },
    }
}

impl FileCollector {
    /// The rules of the ignore matcher.
    pub open spec fn rules(&self) -> Seq<Seq<char>> {
        self.matcher().rules()
    }

    /// Handles one root: the error if it does not exist, else every
    /// visited entry in order.
    pub fn collect_root(&mut self, root: &ScanRoot) -> (r: Result<(), CollectError>)
        requires
            decodable(root.entries@),
        ensures
            final(self).matcher() == old(self).matcher(),
            root.exists ==> r is Ok && final(self).text() == old(self).text() + entries_text(
                old(self).rules(),
                root.entries@,
            ),
            !root.exists ==> final(self).text() == old(self).text() && (r matches Err(
                CollectError::PathNotFound(p),
            ) && p@ == root.path@),
    {
        if !root.exists {
            return Err(FileCollector::missing_root(root.path.as_str()));
        }
        let mut i: usize = 0;
        assert(root.entries@.take(0) =~= Seq::<ScanEntry>::empty());
        assert(self.text() =~= old(self).text() + entries_text(
            old(self).rules(),
            root.entries@.take(0),
        ));
        while i < root.entries.len()
            invariant
                i <= root.entries.len(),
                decodable(root.entries@),
                self.matcher() == old(self).matcher(),
                self.text() == old(self).text() + entries_text(
                    old(self).rules(),
                    root.entries@.take(i as int),
                ),
            decreases root.entries.len() - i,
        {
            let entry = &root.entries[i];
            let ghost before = self.text();
            self.offer_file(
                entry.path.as_str(),
                entry.relative.as_str(),
                entry.is_file,
                entry.content.as_slice(),
            );
            proof {
                let next = root.entries@.take(i + 1);
                assert(next.drop_last() =~= root.entries@.take(i as int));
                assert(next.last() == root.entries@[i as int]);
                assert(self.text() =~= before + entry_text(old(self).rules(), *entry));
                assert(self.text() =~= old(self).text() + entries_text(old(self).rules(), next));
            }
            i += 1;
        }
        assert(root.entries@.take(i as int) =~= root.entries@);
        Ok(())
    }
}

/// Collects the text files of the scanned roots into one annotated output.
/// The roots are handled in order, and the first one that does not exist
/// ends the collection with its error.
pub fn process_files(roots: &[ScanRoot], ignore_patterns: &[String]) -> (r: Result<
    String,
    CollectError,
>)
    requires
        all_decodable(roots@),
    ensures
        collect_outcome(ignore_rules(texts(ignore_patterns@)), roots@, r),
{
    let ghost rules = ignore_rules(texts(ignore_patterns@));
    let mut collector = match FileCollector::new(ignore_patterns) {
        Ok(c) => c,
        Err(e) => {
            return Err(e);
        },
    };
    let mut i: usize = 0;
    assert(roots@.take(0) =~= Seq::<ScanRoot>::empty());
    assert(collector.text() =~= roots_text(rules, roots@.take(0)));
    while i < roots.len()
        invariant
            i <= roots.len(),
            all_decodable(roots@),
            rules == ignore_rules(texts(ignore_patterns@)),
            all_parse(rules) && set_builds(rules),
            collector.rules() == rules,
            all_exist(roots@.take(i as int)),
            collector.text() == roots_text(rules, roots@.take(i as int)),
        decreases roots.len() - i,
    {
        let ghost before = collector.text();
        match collector.collect_root(&roots[i]) {
            Ok(()) => {},
            Err(e) => {
                assert(first_missing(roots@, i as int));
                return Err(e);
            },
        }
        proof {
            let next = roots@.take(i + 1);
            assert(next.drop_last() =~= roots@.take(i as int));
            assert(next.last() == roots@[i as int]);
            assert forall|j: int| 0 <= j < next.len() implies (#[trigger] next[j]).exists by {
                if j < i {
                    assert(roots@.take(i as int)[j].exists);
                }
            }
        }
        i += 1;
    }
    assert(roots@.take(i as int) =~= roots@);
    collector.finish()
}

/// A missing root fails the whole collection, whatever the other roots
/// hold: no outcome that meets the contract of `process_files` is an output.
pub proof fn lemma_missing_root_fails(
    rules: Seq<Seq<char>>,
    roots: Seq<ScanRoot>,
    index: int,
    r: Result<String, CollectError>,
)
    requires
        0 <= index < roots.len(),
        !roots[index].exists,
        collect_outcome(rules, roots, r),
    ensures
        r is Err,
        !(r matches Err(CollectError::NoReadableFiles)),
{
}

/// Every accepted entry's section stands in the output of its run: some
/// text before it, then the section with the entry's path and decoded
/// content, then what later entries add.
pub proof fn lemma_accepted_entry_in_output(
    rules: Seq<Seq<char>>,
    entries: Seq<ScanEntry>,
    index: int,
)
    requires
        0 <= index < entries.len(),
        rules_accept(rules, entries[index]),
    ensures
        entries_text(rules, entries) == entries_text(rules, entries.take(index)) + section(
            entries[index].path@,
            decoded_text(entries[index].content@),
        ) + entries_text(rules, entries.skip(index + 1)),
    decreases entries.len(),
{
    let last = entries.len() - 1;
    if index == last {
        assert(entries.drop_last() =~= entries.take(index));
        assert(entries.skip(index + 1) =~= Seq::<ScanEntry>::empty());
        assert(entries_text(rules, entries) =~= entries_text(rules, entries.take(index))
            + section(entries[index].path@, decoded_text(entries[index].content@))
            + entries_text(rules, entries.skip(index + 1)));
    } else {
        let front = entries.drop_last();
        lemma_accepted_entry_in_output(rules, front, index);
        assert(front.take(index) =~= entries.take(index));
        assert(entries.skip(index + 1).drop_last() =~= front.skip(index + 1));
        assert(entries.skip(index + 1).last() == entries.last());
        assert(entries_text(rules, entries) =~= entries_text(rules, entries.take(index))
            + section(entries[index].path@, decoded_text(entries[index].content@))
            + entries_text(rules, entries.skip(index + 1)));
    }
}

/// The output of a run of roots is what the roots before one of them add,
/// then what that root's entries add, then what the roots after it add.
pub proof fn lemma_roots_text_split(rules: Seq<Seq<char>>, roots: Seq<ScanRoot>, index: int)
    requires
        0 <= index < roots.len(),
    ensures
        roots_text(rules, roots) == roots_text(rules, roots.take(index)) + entries_text(
            rules,
            roots[index].entries@,
        ) + roots_text(rules, roots.skip(index + 1)),
    decreases roots.len(),
{
    let last = roots.len() - 1;
    if index == last {
        assert(roots.drop_last() =~= roots.take(index));
        assert(roots.skip(index + 1) =~= Seq::<ScanRoot>::empty());
        assert(roots_text(rules, roots) =~= roots_text(rules, roots.take(index)) + entries_text(
            rules,
            roots[index].entries@,
        ) + roots_text(rules, roots.skip(index + 1)));
    } else {
        let front = roots.drop_last();
        lemma_roots_text_split(rules, front, index);
        assert(front.take(index) =~= roots.take(index));
        assert(roots.skip(index + 1).drop_last() =~= front.skip(index + 1));
        assert(roots.skip(index + 1).last() == roots.last());
        assert(roots_text(rules, roots) =~= roots_text(rules, roots.take(index)) + entries_text(
            rules,
            roots[index].entries@,
        ) + roots_text(rules, roots.skip(index + 1)));
    }
}

/// Every accepted entry's section stands in the whole output, whichever root
/// it was found under: what the earlier roots and the earlier entries of its
/// root add, then the section with the entry's path and decoded content,
/// then what the later entries and the later roots add.
pub proof fn lemma_accepted_entry_in_whole_output(
    rules: Seq<Seq<char>>,
    roots: Seq<ScanRoot>,
    root: int,
    entry: int,
)
    requires
        0 <= root < roots.len(),
        0 <= entry < roots[root].entries@.len(),
        rules_accept(rules, roots[root].entries@[entry]),
    ensures
        roots_text(rules, roots) == roots_text(rules, roots.take(root)) + entries_text(
            rules,
            roots[root].entries@.take(entry),
        ) + section(
            roots[root].entries@[entry].path@,
            decoded_text(roots[root].entries@[entry].content@),
        ) + entries_text(rules, roots[root].entries@.skip(entry + 1)) + roots_text(
            rules,
            roots.skip(root + 1),
        ),
{
    let entries = roots[root].entries@;
    lemma_roots_text_split(rules, roots, root);
    lemma_accepted_entry_in_output(rules, entries, entry);
    assert(roots_text(rules, roots) =~= roots_text(rules, roots.take(root)) + entries_text(
        rules,
        entries.take(entry),
    ) + section(entries[entry].path@, decoded_text(entries[entry].content@)) + entries_text(
        rules,
        entries.skip(entry + 1),
    ) + roots_text(rules, roots.skip(root + 1)));
}

/// An accepted file's section is the tail of the output: the path and the
/// decoded content stand in it verbatim, after everything collected before.
pub proof fn lemma_output_ends_with_section(before: Seq<char>, path: Seq<char>, text: Seq<char>)
    ensures
        (before + section(path, text)).subrange(
            before.len() as int + 5,
            before.len() as int + 5 + path.len() as int,
        ) == path,
        (before + section(path, text)).subrange(
            before.len() as int + 11 + path.len() as int,
            before.len() as int + 11 + path.len() as int + text.len() as int,
        ) == text,
{
    let out = before + section(path, text);
    let b = before.len() as int;
    let p = path.len() as int;
    let t = text.len() as int;
    assert(out.subrange(b + 5, b + 5 + p) =~= path);
    assert(out.subrange(b + 11 + p, b + 11 + p + t) =~= text);
}

} // verus!
