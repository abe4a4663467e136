//! Code navigation from a symbol index, for when no language server is
//! configured.
//!
//! The index fails as silence: a lookup that resolves nothing gives no signal
//! that it failed. So an empty result is never reported as a fact. A textual
//! whole-word search answers the question again, and its hits are returned
//! instead, labelled as unresolved. The tool may be imprecise, but it must not
//! assert a negative that it has not established.

use vstd::prelude::*;
use vstd::string::*;

use crate::decimal::{decimal, decimal_string};
use crate::text::{
    chars_of, contains, lines, occurs_at, split_lines, stands_at, string_of, trim,
    trimmed_string,
};

verus! {

/// Cap on files the textual fallback will read before giving up.
pub const FALLBACK_FILE_LIMIT: usize = 5000;

/// How many files the fallback lists.
pub const FALLBACK_REPORT_FILES: usize = 60;

/// How many line numbers to show per file before eliding the rest. The count
/// is always reported in full.
pub const FALLBACK_LINES_PER_FILE: usize = 12;

/// Appended to every non-empty reference result: references inside a macro
/// invocation are not indexed, so a non-empty result is a lower bound, never a
/// census.
pub const MACRO_CAVEAT: &'static str =
    "\nNote: references inside macro invocations are not indexed (tree-sitter does not parse macro bodies), so anything used only inside `assert_eq!`, `select!`, `stream!` or similar is missing from this list. Treat the count as a lower bound; search textually before concluding a symbol is unused in tests.";

/// What the caller asks for.
#[derive(Debug, Clone, Copy, PartialEq, Eq, Structural)]
pub enum LspOperation {
    GoToDefinition,
    FindReferences,
    Hover,
    DocumentSymbol,
    WorkspaceSymbol,
    GoToImplementation,
}

impl LspOperation {
    /// How the operation is spelled. The spelling is an assumption: each name is
    /// taken to be written in camel case, as tool inputs are.
    pub open spec fn spelling(self) -> Seq<char> {
        match self {
            LspOperation::GoToDefinition => "goToDefinition"@,
            LspOperation::FindReferences => "findReferences"@,
            LspOperation::Hover => "hover"@,
            LspOperation::DocumentSymbol => "documentSymbol"@,
            LspOperation::WorkspaceSymbol => "workspaceSymbol"@,
            LspOperation::GoToImplementation => "goToImplementation"@,
        }
    }

    /// The name of the operation.
    pub fn name(&self) -> (r: &'static str)
        ensures
            r@ == self.spelling(),
    {
        match self {
            LspOperation::GoToDefinition => "goToDefinition",
            LspOperation::FindReferences => "findReferences",
            LspOperation::Hover => "hover",
            LspOperation::DocumentSymbol => "documentSymbol",
            LspOperation::WorkspaceSymbol => "workspaceSymbol",
            LspOperation::GoToImplementation => "goToImplementation",
        }
    }
}

/// A navigation request. Positions are 0-indexed.
#[derive(Debug, Clone)]
pub struct LspToolInput {
    pub operation: LspOperation,
    pub file_path: Option<String>,
    pub line: Option<u32>,
    pub character: Option<u32>,
    pub query: Option<String>,
}

/// The answer to a navigation request.
#[derive(Debug, Clone)]
pub struct LspToolResult {
    pub text: String,
    pub is_error: bool,
}

/// A place in the source that the index knows. Lines are 1-indexed.
#[derive(Debug, Clone)]
pub struct SymbolLocation {
    pub path: String,
    pub line: usize,
}

impl SymbolLocation {
    pub fn new(path: &str, line: usize) -> (r: Self)
        ensures
            r.path@ == path@,
            r.line == line,
    {
        SymbolLocation { path: path.to_owned(), line }
    }
}

/// What to look up in the index. Positions are 1-indexed.
#[derive(Debug, Clone)]
pub enum Target {
    Position { file: String, row: usize, col: usize },
    Name(String),
}

/// Wraps a shared handle on the symbol index of one root directory rather than
/// owning an index.
pub struct CodeGraphBackend<I> {
    pub root: String,
    pub index: I,
}

impl<I> CodeGraphBackend<I> {
    pub fn new(root: String, index: I) -> (r: Self)
        ensures
            r.root == root,
            r.index == index,
    {
        CodeGraphBackend { root, index }
    }
}

/// What the textual fallback found, grouped by file.
#[derive(Debug)]
pub struct ScanResult {
    /// Path and matching line numbers, in walk order, capped at
    /// [`FALLBACK_REPORT_FILES`] entries.
    pub files: Vec<(String, Vec<usize>)>,
    /// Every match found, including those in files beyond the report cap.
    pub total_hits: usize,
    /// Every file containing a match, including those beyond the report cap.
    pub total_files: usize,
    /// The walk stopped on [`FALLBACK_FILE_LIMIT`], so counts are lower bounds.
    pub walk_truncated: bool,
}

impl Default for ScanResult {
    fn default() -> (r: Self)
        ensures
            r.files@.len() == 0,
            r.total_hits == 0,
            r.total_files == 0,
            !r.walk_truncated,
    {
        ScanResult { files: Vec::new(), total_hits: 0, total_files: 0, walk_truncated: false }
    }
}

// ---- Whole words ----

/// A byte that can stand in an identifier.
pub open spec fn ident_byte(b: u8) -> bool {
    (48 <= b <= 57) || (65 <= b <= 90) || (97 <= b <= 122) || b == 95
}

/// A character that can stand in an identifier.
pub open spec fn ident_char(c: char) -> bool {
    (c as u32) < 128 && ident_byte(c as u8)
}

/// `word` stands in `s` at `i`, with no identifier character beside it.
pub open spec fn word_at(s: Seq<char>, word: Seq<char>, i: int) -> bool {
    &&& occurs_at(s, word, i)
    &&& i == 0 || !ident_char(s[i - 1])
    &&& i + word.len() == s.len() || !ident_char(s[i + word.len()])
}

/// `s` contains `word` as a whole word.
pub open spec fn has_word(s: Seq<char>, word: Seq<char>) -> bool {
    word.len() > 0 && exists|i: int| word_at(s, word, i)
}

/// Whether a byte can stand in an identifier: ASCII letters, digits and `_`.
pub fn is_ident_byte(b: u8) -> (r: bool)
    ensures
        r == ident_byte(b),
{
    (48 <= b && b <= 57) || (65 <= b && b <= 90) || (97 <= b && b <= 122) || b == 95
}

fn is_ident_char(c: char) -> (r: bool)
    ensures
        r == ident_char(c),
{
    (c as u32) < 128 && is_ident_byte(c as u8)
}

/// Whole-word containment, so `reasoning` does not match `reasoning_content`.
pub fn contains_word(haystack: &str, needle: &str) -> (r: bool)
    ensures
        r == has_word(haystack@, needle@),
{
    word_in(&chars_of(haystack), &chars_of(needle))
}

fn word_in(s: &[char], word: &[char]) -> (r: bool)
    ensures
        r == has_word(s@, word@),
{
    if word.len() == 0 || word.len() > s.len() {
        return false;
    }
    let last: usize = s.len() - word.len();
    let mut i: usize = 0;
    while i <= last
        invariant
            last + word@.len() == s@.len(),
            last < usize::MAX,
            word@.len() > 0,
            i <= last + 1,
            forall|j: int| 0 <= j < i ==> !word_at(s@, word@, j),
        decreases last + 1 - i,
    {
        if stands_at(s, word, i) && (i == 0 || !is_ident_char(s[i - 1])) && (i == last
            || !is_ident_char(s[i + word.len()])) {
            assert(word_at(s@, word@, i as int));
            return true;
        }
        i += 1;
    }
    false
}

// ---- The textual search ----

/// The 1-based numbers of the lines that contain `symbol` as a whole word.
pub open spec fn matching(ls: Seq<Seq<char>>, symbol: Seq<char>) -> Seq<usize>
    decreases ls.len(),
{
    if ls.len() == 0 {
        Seq::empty()
    } else {
        let before = matching(ls.drop_last(), symbol);
        if has_word(ls.last(), symbol) {
            before.push(ls.len() as usize)
        } else {
            before
        }
    }
}

/// The numbers of the lines of a text that contain `symbol` as a whole word.
pub open spec fn matching_lines(text: Seq<char>, symbol: Seq<char>) -> Seq<usize> {
    matching(lines(text), symbol)
}

/// A path with forward slashes.
pub open spec fn slashed(path: Seq<char>) -> Seq<char> {
    path.map_values(
        |c: char|
            if c == '\\' {
                '/'
            } else {
                c
            },
    )
}

fn forward_slashes(path: &str) -> (r: String)
    ensures
        r@ == slashed(path@),
{
    let chars = chars_of(path);
    let mut out: Vec<char> = Vec::new();
    let mut i: usize = 0;
    while i < chars.len()
        invariant
            i <= chars@.len(),
            out@ == slashed(chars@).take(i as int),
        decreases chars@.len() - i,
    {
        let c: char = chars[i];
        out.push(
            if c == '\\' {
                '/'
            } else {
                c
            },
        );
        i += 1;
        assert(out@ =~= slashed(chars@).take(i as int));
    }
    assert(out@ =~= slashed(path@));
    string_of(&out)
}

/// The numbers of the lines of `text` that contain `symbol` as a whole word.
pub fn scan_text(text: &str, symbol: &str) -> (r: Vec<usize>)
    ensures
        r@ == matching_lines(text@, symbol@),
{
    let ls = split_lines(&chars_of(text));
    let word = chars_of(symbol);
    let ghost all = lines(text@);
    let mut out: Vec<usize> = Vec::new();
    let mut i: usize = 0;
    assert(all.take(0) =~= Seq::empty());
    while i < ls.len()
        invariant
            i <= ls@.len(),
            ls@.len() == all.len(),
            word@ == symbol@,
            forall|k: int| 0 <= k < ls@.len() ==> (#[trigger] ls@[k])@ == all[k],
            out@ == matching(all.take(i as int), symbol@),
        decreases ls@.len() - i,
    {
        let hit = word_in(&ls[i], &word);
        proof {
            let t = all.take(i + 1);
            assert(t.drop_last() =~= all.take(i as int));
            assert(t.last() == ls@[i as int]@);
        }
        if hit {
            out.push(i + 1);
        }
        i += 1;
    }
    assert(all.take(i as int) =~= all);
    out
}

/// A textual search in progress: what it found so far, and how many files it
/// has read.
#[derive(Debug)]
pub struct LiteralScan {
    pub result: ScanResult,
    pub files_read: usize,
}

impl LiteralScan {
    /// The listing holds the matching files up to the cap, and the totals
    /// count at least what is listed.
    pub open spec fn wf(self) -> bool {
        &&& self.files_read <= FALLBACK_FILE_LIMIT
        &&& self.result.total_files <= self.files_read
        &&& self.result.total_files <= self.result.total_hits
        &&& self.result.files@.len() == if self.result.total_files < FALLBACK_REPORT_FILES {
            self.result.total_files as int
        } else {
            FALLBACK_REPORT_FILES as int
        }
        &&& listed_hits(self.result.files@) <= self.result.total_hits
        &&& forall|i: int|
            0 <= i < self.result.files@.len() ==> (#[trigger] self.result.files@[i]).1@.len() > 0
    }

    /// Nothing has been searched yet.
    pub open spec fn fresh(self) -> bool {
        &&& self.files_read == 0
        &&& self.result.files@.len() == 0
        &&& self.result.total_hits == 0
        &&& self.result.total_files == 0
        &&& !self.result.walk_truncated
    }

    /// This is `before` after one more file was searched.
    pub open spec fn adds(
        self,
        before: LiteralScan,
        path: Seq<char>,
        text: Seq<char>,
        symbol: Seq<char>,
    ) -> bool {
        let found = matching_lines(text, symbol);
        &&& self.files_read == before.files_read + 1
        &&& self.result.walk_truncated == before.result.walk_truncated
        &&& self.result.total_hits == before.result.total_hits + found.len()
        &&& self.result.total_files == before.result.total_files + (if found.len() > 0 {
            1int
        } else {
            0int
        })
        &&& if found.len() > 0 && before.result.files@.len() < FALLBACK_REPORT_FILES {
            &&& self.result.files@.len() == before.result.files@.len() + 1
            &&& self.result.files@.drop_last() == before.result.files@
            &&& self.result.files@.last().0@ == slashed(path)
            &&& self.result.files@.last().1@ == found
        } else {
            self.result.files@ == before.result.files@
        }
    }

    pub fn new() -> (r: Self)
        ensures
            r.wf(),
            r.fresh(),
    {
        LiteralScan { result: ScanResult::default(), files_read: 0 }
    }

    /// Whether another entry of the walk is looked at. At the file limit it is
    /// not, and the search is marked as cut short.
    pub fn wants_more(&mut self) -> (r: bool)
        ensures
            r == (old(self).files_read < FALLBACK_FILE_LIMIT),
            final(self).files_read == old(self).files_read,
            final(self).result.files == old(self).result.files,
            final(self).result.total_hits == old(self).result.total_hits,
            final(self).result.total_files == old(self).result.total_files,
            final(self).result.walk_truncated == (old(self).result.walk_truncated || !r),
            r ==> *final(self) == *old(self),
            old(self).wf() ==> final(self).wf(),
    {
        if self.files_read >= FALLBACK_FILE_LIMIT {
            self.result.walk_truncated = true;
            false
        } else {
            true
        }
    }

    /// Search one more file. Hits are counted before the report cap, so the
    /// totals stay complete however many files are listed.
    pub fn add_file(&mut self, path: &str, text: &str, symbol: &str)
        requires
            old(self).wf(),
            old(self).files_read < FALLBACK_FILE_LIMIT,
            old(self).result.total_hits + matching_lines(text@, symbol@).len() <= usize::MAX,
        ensures
            final(self).wf(),
            final(self).adds(*old(self), path@, text@, symbol@),
    {
        let found = scan_text(text, symbol);
        self.files_read += 1;
        if found.len() == 0 {
            return;
        }
        self.result.total_hits += found.len();
        self.result.total_files += 1;
        if self.result.files.len() < FALLBACK_REPORT_FILES {
            let ghost before = self.result.files@;
            self.result.files.push((forward_slashes(path), found));
            assert(self.result.files@.drop_last() =~= before);
        }
    }
}

/// The hits in the listed files.
pub open spec fn listed_hits(files: Seq<(String, Vec<usize>)>) -> nat
    decreases files.len(),
{
    if files.len() == 0 {
        0
    } else {
        listed_hits(files.drop_last()) + files.last().1@.len()
    }
}

// ---- Rendering ----

pub open spec fn location_lines(locations: Seq<SymbolLocation>) -> Seq<char>
    decreases locations.len(),
{
    if locations.len() == 0 {
        Seq::empty()
    } else {
        location_lines(locations.drop_last()) + "  "@ + locations.last().path@ + ":"@ + decimal(
            locations.last().line as nat,
        ) + "\n"@
    }
}

/// The text of a resolved lookup.
pub open spec fn rendered(
    symbol: Seq<char>,
    label: Seq<char>,
    locations: Seq<SymbolLocation>,
) -> Seq<char> {
    label + " of `"@ + symbol + "` ("@ + decimal(locations.len()) + "):\n"@ + location_lines(
        locations,
    )
}

/// List the locations that the index resolved.
#[verifier::rlimit(40)]
pub fn render(symbol: &str, label: &str, locations: &[SymbolLocation]) -> (r: String)
    ensures
        r@ == rendered(symbol@, label@, locations@),
{
    let mut out = label.to_owned();
    out.append(" of `");
    out.append(symbol);
    out.append("` (");
    out.append(decimal_string(locations.len() as u64).as_str());
    out.append("):\n");
    let ghost head = out@;
    let mut i: usize = 0;
    assert(locations@.take(0) =~= Seq::empty());
    assert(head + location_lines(locations@.take(0)) =~= head);
    while i < locations.len()
        invariant
            i <= locations@.len(),
            out@ == head + location_lines(locations@.take(i as int)),
        decreases locations@.len() - i,
    {
        out.append("  ");
        out.append(locations[i].path.as_str());
        out.append(":");
        out.append(decimal_string(locations[i].line as u64).as_str());
        out.append("\n");
        proof {
            let t = locations@.take(i + 1);
            assert(t.drop_last() =~= locations@.take(i as int));
            assert(t.last() == locations@[i as int]);
        }
        i += 1;
        assert(out@ =~= head + location_lines(locations@.take(i as int)));
    }
    assert(locations@.take(i as int) =~= locations@);
    out
}

/// Numbers, separated by commas.
pub open spec fn joined(numbers: Seq<usize>) -> Seq<char>
    decreases numbers.len(),
{
    if numbers.len() == 0 {
        Seq::empty()
    } else if numbers.len() == 1 {
        decimal(numbers[0] as nat)
    } else {
        joined(numbers.drop_last()) + ", "@ + decimal(numbers.last() as nat)
    }
}

/// The line numbers that are shown of a file.
pub open spec fn shown(numbers: Seq<usize>) -> Seq<usize> {
    if numbers.len() <= FALLBACK_LINES_PER_FILE {
        numbers
    } else {
        numbers.take(FALLBACK_LINES_PER_FILE as int)
    }
}

/// How many line numbers are left out, where some are.
pub open spec fn elided(numbers: Seq<usize>) -> Seq<char> {
    if numbers.len() > FALLBACK_LINES_PER_FILE {
        ", +"@ + decimal((numbers.len() - FALLBACK_LINES_PER_FILE) as nat) + " more"@
    } else {
        Seq::empty()
    }
}

/// The line of the listing that speaks of one file.
pub open spec fn file_line(file: (String, Vec<usize>)) -> Seq<char> {
    "  "@ + file.0@ + " ("@ + decimal(file.1@.len()) + "): "@ + joined(shown(file.1@)) + elided(
        file.1@,
    ) + "\n"@
}

pub open spec fn file_lines(files: Seq<(String, Vec<usize>)>) -> Seq<char>
    decreases files.len(),
{
    if files.len() == 0 {
        Seq::empty()
    } else {
        file_lines(files.drop_last()) + file_line(files.last())
    }
}

/// What an index miss says about itself.
pub open spec fn miss_notice(symbol: Seq<char>) -> Seq<char> {
    "The symbol index resolved no references for `"@ + symbol
        + "`. This does NOT mean there are none -- resolution is known to fail for some methods and struct fields, so treat an index miss as no information rather than as evidence that `"@
        + symbol + "` is unused.\n"@
}

/// What a textual search without hits says.
pub open spec fn no_hits_notice(symbol: Seq<char>, walk_truncated: bool) -> Seq<char> {
    "A whole-word textual search also found no occurrences"@ + (if walk_truncated {
        " in the files searched (the search itself was cut short, so this is not exhaustive)"@
    } else {
        ""@
    }) + ", which is stronger evidence, but still confirm before treating `"@ + symbol
        + "` as dead.\n"@
}

/// The totals of a textual search.
pub open spec fn totals_notice(total_hits: nat, total_files: nat) -> Seq<char> {
    "\nFalling back to a whole-word textual search: "@ + decimal(total_hits)
        + " occurrence(s) across "@ + decimal(total_files) + " file(s).\n"@
}

/// What is said of matching files that are not listed.
pub open spec fn unlisted_notice(total_files: nat, listed: nat) -> Seq<char> {
    if total_files > listed {
        "  ... and "@ + decimal((total_files - listed) as nat) + " further file(s) not listed.\n"@
    } else {
        Seq::empty()
    }
}

/// What is said of a search that stopped early.
pub open spec fn stopped_notice(walk_truncated: bool) -> Seq<char> {
    if walk_truncated {
        "  (The search stopped early, so these counts are lower bounds.)\n"@
    } else {
        Seq::empty()
    }
}

/// What textual matches are.
pub open spec fn textual_notice() -> Seq<char> {
    "\nThese are textual matches, not resolved references: they include the definition, comments and same-named symbols on other types.\n"@
}

/// The message that replaces a bare zero.
pub open spec fn rendered_unresolved(symbol: Seq<char>, scan: ScanResult) -> Seq<char> {
    if scan.total_hits == 0 {
        miss_notice(symbol) + no_hits_notice(symbol, scan.walk_truncated)
    } else {
        miss_notice(symbol) + totals_notice(scan.total_hits as nat, scan.total_files as nat)
            + file_lines(scan.files@) + unlisted_notice(scan.total_files as nat, scan.files@.len())
            + stopped_notice(scan.walk_truncated) + textual_notice()
    }
}

#[verifier::rlimit(40)]
fn append_file_line(out: &mut String, file: &(String, Vec<usize>))
    ensures
        final(out)@ == old(out)@ + file_line(*file),
{
    let numbers = &file.1;
    out.append("  ");
    out.append(file.0.as_str());
    out.append(" (");
    out.append(decimal_string(numbers.len() as u64).as_str());
    out.append("): ");
    let ghost head = out@;
    let limit: usize = if numbers.len() <= FALLBACK_LINES_PER_FILE {
        numbers.len()
    } else {
        FALLBACK_LINES_PER_FILE
    };
    assert(shown(numbers@) =~= numbers@.take(limit as int));
    let mut i: usize = 0;
    assert(numbers@.take(0) =~= Seq::empty());
    assert(head + joined(numbers@.take(0)) =~= head);
    while i < limit
        invariant
            i <= limit <= numbers@.len(),
            out@ == head + joined(numbers@.take(i as int)),
        decreases limit - i,
    {
        if i > 0 {
            out.append(", ");
        }
        out.append(decimal_string(numbers[i] as u64).as_str());
        proof {
            let t = numbers@.take(i + 1);
            assert(t.drop_last() =~= numbers@.take(i as int));
            assert(t.last() == numbers@[i as int]);
        }
        i += 1;
        assert(out@ =~= head + joined(numbers@.take(i as int)));
    }
    if numbers.len() > FALLBACK_LINES_PER_FILE {
        out.append(", +");
        out.append(decimal_string((numbers.len() - FALLBACK_LINES_PER_FILE) as u64).as_str());
        out.append(" more");
    }
    out.append("\n");
    assert(out@ =~= head + joined(shown(numbers@)) + elided(numbers@) + "\n"@);
    assert(out@ =~= old(out)@ + file_line(*file));
}

fn append_file_lines(out: &mut String, files: &Vec<(String, Vec<usize>)>)
    ensures
        final(out)@ == old(out)@ + file_lines(files@),
{
    let ghost head = out@;
    let mut i: usize = 0;
    assert(files@.take(0) =~= Seq::empty());
    assert(head + file_lines(files@.take(0)) =~= head);
    while i < files.len()
        invariant
            i <= files@.len(),
            out@ == head + file_lines(files@.take(i as int)),
        decreases files@.len() - i,
    {
        append_file_line(out, &files[i]);
        proof {
            let t = files@.take(i + 1);
            let before = file_lines(files@.take(i as int));
            let line = file_line(files@[i as int]);
            assert(t.drop_last() =~= files@.take(i as int));
            assert(file_lines(t) == before + line);
            assert((head + before) + line =~= head + (before + line));
        }
        i += 1;
    }
    assert(files@.take(i as int) =~= files@);
}

/// The message that replaces a bare zero: what an index miss means, and what a
/// textual search found.
#[verifier::rlimit(40)]
pub fn render_unresolved(symbol: &str, scan: &ScanResult) -> (r: String)
    ensures
        r@ == rendered_unresolved(symbol@, *scan),
{
    let mut out = "The symbol index resolved no references for `".to_owned();
    out.append(symbol);
    out.append(
        "`. This does NOT mean there are none -- resolution is known to fail for some methods and struct fields, so treat an index miss as no information rather than as evidence that `",
    );
    out.append(symbol);
    out.append("` is unused.\n");
    assert(out@ =~= miss_notice(symbol@));
    if scan.total_hits == 0 {
        out.append("A whole-word textual search also found no occurrences");
        if scan.walk_truncated {
            out.append(
                " in the files searched (the search itself was cut short, so this is not exhaustive)",
            );
        } else {
            out.append("");
        }
        out.append(", which is stronger evidence, but still confirm before treating `");
        out.append(symbol);
        out.append("` as dead.\n");
        assert(out@ =~= miss_notice(symbol@) + no_hits_notice(symbol@, scan.walk_truncated));
        return out;
    }
    out.append("\nFalling back to a whole-word textual search: ");
    out.append(decimal_string(scan.total_hits as u64).as_str());
    out.append(" occurrence(s) across ");
    out.append(decimal_string(scan.total_files as u64).as_str());
    out.append(" file(s).\n");
    let ghost head = miss_notice(symbol@) + totals_notice(
        scan.total_hits as nat,
        scan.total_files as nat,
    );
    assert(out@ =~= head);
    append_file_lines(&mut out, &scan.files);
    if scan.total_files > scan.files.len() {
        out.append("  ... and ");
        out.append(decimal_string((scan.total_files - scan.files.len()) as u64).as_str());
        out.append(" further file(s) not listed.\n");
    }
    if scan.walk_truncated {
        out.append("  (The search stopped early, so these counts are lower bounds.)\n");
    }
    out.append(
        "\nThese are textual matches, not resolved references: they include the definition, comments and same-named symbols on other types.\n",
    );
    assert(out@ =~= rendered_unresolved(symbol@, *scan));
    out
}

// ---- Answering a request ----

/// The answer when no textual search could run.
pub open spec fn failed_scan_notice(symbol: Seq<char>) -> Seq<char> {
    "The symbol index resolved nothing for `"@ + symbol
        + "`, and the textual fallback search failed to run. This is not evidence that `"@ + symbol
        + "` is unused -- no search completed. Retry, or search manually."@
}

/// The answer when there is no name that a textual search could look for.
pub open spec fn nameless_notice() -> Seq<char> {
    "The symbol index resolved nothing at this position, and without a symbol name no textual search was run. This is not evidence that the symbol is unused -- no search completed. Retry with `query` set to the symbol name, or search manually."@
}

/// The answer when the index found nothing: what a textual search found, or,
/// where the search failed to run (`None`) or there was no name to look for, an
/// error that claims nothing about the symbol.
pub fn fallback_result(symbol: &str, scan: Option<&ScanResult>) -> (r: LspToolResult)
    ensures
        r.is_error == (symbol@.len() == 0 || scan is None),
        r.text@ == if symbol@.len() == 0 {
            nameless_notice()
        } else {
            match scan {
                Some(found) => rendered_unresolved(symbol@, *found),
                None => failed_scan_notice(symbol@),
            }
        },
{
    if symbol.unicode_len() == 0 {
        return LspToolResult {
            text: "The symbol index resolved nothing at this position, and without a symbol name no textual search was run. This is not evidence that the symbol is unused -- no search completed. Retry with `query` set to the symbol name, or search manually.".to_owned(),
            is_error: true,
        };
    }
    match scan {
        Some(found) => LspToolResult { text: render_unresolved(symbol, found), is_error: false },
        None => {
            let mut text = "The symbol index resolved nothing for `".to_owned();
            text.append(symbol);
            text.append(
                "`, and the textual fallback search failed to run. This is not evidence that `",
            );
            text.append(symbol);
            text.append("` is unused -- no search completed. Retry, or search manually.");
            LspToolResult { text, is_error: true }
        },
    }
}

/// The answer to an operation that a symbol index cannot serve.
pub open spec fn unsupported_notice(op: LspOperation) -> Seq<char> {
    "`"@ + op.spelling()
        + "` needs a language server, and none is configured for this workspace. Definitions and references are being served by the built-in symbol index, which does not compute types, documentation or trait implementations. Configure ~/.axon/lsp.json or <cwd>/.axon/lsp.json for full code intelligence."@
}

pub fn unsupported(op: &LspOperation) -> (r: LspToolResult)
    ensures
        r.is_error,
        r.text@ == unsupported_notice(*op),
{
    let mut text = "`".to_owned();
    text.append(op.name());
    text.append(
        "` needs a language server, and none is configured for this workspace. Definitions and references are being served by the built-in symbol index, which does not compute types, documentation or trait implementations. Configure ~/.axon/lsp.json or <cwd>/.axon/lsp.json for full code intelligence.",
    );
    LspToolResult { text, is_error: true }
}

/// The answer to a request that names nothing to look up.
pub fn missing_target() -> (r: LspToolResult)
    ensures
        r.is_error,
        r.text@
            == "Provide either `query` (symbol name) or `file_path` + `line` + `character` (0-indexed position)."@,
{
    LspToolResult {
        text: "Provide either `query` (symbol name) or `file_path` + `line` + `character` (0-indexed position).".to_owned(),
        is_error: true,
    }
}

impl LspToolInput {
    /// The request gives a file, a line and a character.
    pub open spec fn has_position(self) -> bool {
        self.file_path is Some && self.line is Some && self.character is Some
    }

    /// The request gives a symbol name that is not blank.
    pub open spec fn has_name(self) -> bool {
        self.query matches Some(q) && trim(q@).len() > 0
    }

    /// The position, counted from one, can be written down.
    pub open spec fn position_fits(self) -> bool {
        self.has_position() ==> self.line->0 < usize::MAX && self.character->0 < usize::MAX
    }

    /// What the request asks to look up.
    pub open spec fn asks_for(self, target: Option<Target>) -> bool {
        match target {
            Some(Target::Position { file, row, col }) => {
                &&& self.has_position()
                &&& file@ == self.file_path->0@
                &&& row == self.line->0 + 1
                &&& col == self.character->0 + 1
            },
            Some(Target::Name(name)) => {
                &&& !self.has_position()
                &&& self.has_name()
                &&& name@ == trim(self.query->0@)
            },
            None => !self.has_position() && !self.has_name(),
        }
    }
}

/// What the request asks to look up. Position wins when fully specified: it is
/// the direction that resolves reliably. The request counts from zero, the
/// index from one.
pub fn resolve_target(input: &LspToolInput) -> (r: Option<Target>)
    requires
        input.position_fits(),
    ensures
        input.asks_for(r),
{
    if let (Some(file), Some(line), Some(character)) = (
        &input.file_path,
        input.line,
        input.character,
    ) {
        return Some(
            Target::Position {
                file: file.as_str().to_owned(),
                row: line as usize + 1,
                col: character as usize + 1,
            },
        );
    }
    match &input.query {
        Some(query) => {
            let name = trimmed_string(query.as_str());
            if name.as_str().unicode_len() == 0 {
                None
            } else {
                Some(Target::Name(name))
            }
        },
        None => None,
    }
}

/// The symbol name that a request gives.
pub open spec fn named_symbol(input: LspToolInput) -> Seq<char> {
    match input.query {
        Some(query) => trim(query@),
        None => Seq::empty(),
    }
}

/// Best-effort symbol name of a request.
pub fn target_symbol(input: &LspToolInput) -> (r: String)
    ensures
        r@ == named_symbol(*input),
{
    match &input.query {
        Some(query) => trimmed_string(query.as_str()),
        None => String::new(),
    }
}

/// The symbol that the index resolved, where it resolved one.
pub open spec fn resolved_symbol(found: Option<(String, Vec<SymbolLocation>)>) -> Seq<char> {
    match found {
        Some((symbol, locations)) => symbol@,
        None => Seq::empty(),
    }
}

/// The symbol that a textual search looks for: the one that the index resolved,
/// or else the one that the request names.
pub open spec fn scan_symbol(
    input: LspToolInput,
    found: Option<(String, Vec<SymbolLocation>)>,
) -> Seq<char> {
    if resolved_symbol(found).len() > 0 {
        resolved_symbol(found)
    } else {
        named_symbol(input)
    }
}

/// The symbol that a textual search looks for when the reply of the index is
/// no answer. The index may resolve the symbol at a position and still know no
/// locations for it: then the same question is asked of the text.
pub fn fallback_symbol(
    input: &LspToolInput,
    found: &Option<(String, Vec<SymbolLocation>)>,
) -> (r: String)
    ensures
        r@ == scan_symbol(*input, *found),
{
    if let Some((symbol, _)) = found {
        if symbol.as_str().unicode_len() > 0 {
            return symbol.as_str().to_owned();
        }
    }
    target_symbol(input)
}

/// Which table of the index is asked.
#[derive(Debug, Clone, Copy, PartialEq, Eq, Structural)]
pub enum Lookup {
    Definitions,
    References,
}

/// The first step of answering a request.
#[derive(Debug)]
pub enum Step {
    /// The answer is known without the index.
    Answer(LspToolResult),
    /// The index is asked, and [`conclude`] reads its reply.
    Ask { lookup: Lookup, target: Target },
}

/// The table that serves an operation, where one does.
pub open spec fn lookup_of(op: LspOperation) -> Option<Lookup> {
    match op {
        LspOperation::GoToDefinition | LspOperation::WorkspaceSymbol => Some(Lookup::Definitions),
        LspOperation::FindReferences => Some(Lookup::References),
        LspOperation::Hover | LspOperation::GoToImplementation | LspOperation::DocumentSymbol => None,
    }
}

/// This is the first step of answering a request.
pub open spec fn planned(input: LspToolInput, step: Step) -> bool {
    match lookup_of(input.operation) {
        None => step matches Step::Answer(answer) && answer.is_error && answer.text@
            == unsupported_notice(input.operation),
        Some(table) => if input.has_position() || input.has_name() {
            step matches Step::Ask { lookup, target } && lookup == table && input.asks_for(
                Some(target),
            )
        } else {
            step matches Step::Answer(answer) && answer.is_error && answer.text@
                == "Provide either `query` (symbol name) or `file_path` + `line` + `character` (0-indexed position)."@
        },
    }
}

/// Decide what a request needs: an answer at once, or a question to the index.
pub fn plan(input: &LspToolInput) -> (r: Step)
    requires
        input.position_fits(),
    ensures
        planned(*input, r),
{
    let lookup = match input.operation {
        LspOperation::Hover | LspOperation::GoToImplementation | LspOperation::DocumentSymbol => {
            return Step::Answer(unsupported(&input.operation));
        },
        LspOperation::GoToDefinition | LspOperation::WorkspaceSymbol => Lookup::Definitions,
        LspOperation::FindReferences => Lookup::References,
    };
    match resolve_target(input) {
        None => Step::Answer(missing_target()),
        Some(target) => Step::Ask { lookup, target },
    }
}

/// The text for what the index resolved. References carry the caveat that they
/// are a lower bound; definitions are exact and do not.
pub open spec fn resolved_text(
    lookup: Lookup,
    symbol: Seq<char>,
    locations: Seq<SymbolLocation>,
) -> Seq<char> {
    match lookup {
        Lookup::Definitions => rendered(symbol, "Definitions"@, locations),
        Lookup::References => rendered(symbol, "References"@, locations) + MACRO_CAVEAT@,
    }
}

/// Read the reply of the index: the symbol it resolved and its locations, or
/// `None` where it failed. An empty reply is no answer, and a textual search
/// for the [`fallback_symbol`] has to follow.
pub fn conclude(lookup: Lookup, found: Option<(String, Vec<SymbolLocation>)>) -> (r: Option<
    LspToolResult,
>)
    ensures
        match found {
            Some((symbol, locations)) => if locations@.len() > 0 {
                r matches Some(answer) && !answer.is_error && answer.text@ == resolved_text(
                    lookup,
                    symbol@,
                    locations@,
                )
            } else {
                r is None
            },
            None => r is None,
        },
{
    match found {
        Some((symbol, locations)) => {
            if locations.len() == 0 {
                return None;
            }
            let text = match lookup {
                Lookup::Definitions => render(symbol.as_str(), "Definitions", &locations),
                Lookup::References => {
                    let mut text = render(symbol.as_str(), "References", &locations);
                    text.append(MACRO_CAVEAT);
                    text
                },
            };
            Some(LspToolResult { text, is_error: false })
        },
        None => None,
    }
}

// ---- Laws ----

proof fn lemma_contains_part(before: Seq<char>, part: Seq<char>, after: Seq<char>)
    ensures
        contains(before + part + after, part),
{
    assert(occurs_at(before + part + after, part, before.len() as int)) by {
        assert((before + part + after).subrange(
            before.len() as int,
            (before.len() + part.len()) as int,
        ) =~= part);
    }
}

proof fn lemma_file_lines_contain(files: Seq<(String, Vec<usize>)>, i: int)
    requires
        0 <= i < files.len(),
    ensures
        exists|before: Seq<char>, after: Seq<char>|
            file_lines(files) == #[trigger] (before + file_line(files[i]) + after),
    decreases files.len(),
{
    if i == files.len() - 1 {
        let before = file_lines(files.drop_last());
        assert(file_lines(files) =~= before + file_line(files[i]) + Seq::empty());
    } else {
        let rest = files.drop_last();
        lemma_file_lines_contain(rest, i);
        let (before, after) = choose|before: Seq<char>, after: Seq<char>|
            file_lines(rest) == #[trigger] (before + file_line(rest[i]) + after);
        assert(file_lines(files) =~= before + file_line(files[i]) + (after + file_line(
            files.last(),
        )));
    }
}

/// The answer that replaces an empty result always opens by saying that an
/// index miss is no information, whatever the textual search found.
pub proof fn a_miss_is_never_reported_bare(symbol: Seq<char>, scan: ScanResult)
    ensures
        crate::text::starts_with(rendered_unresolved(symbol, scan), miss_notice(symbol)),
        contains(miss_notice(symbol), "does NOT mean there are none"@),
        contains(miss_notice(symbol), "treat an index miss as no information"@),
{
    let text = rendered_unresolved(symbol, scan);
    assert(text.subrange(0, miss_notice(symbol).len() as int) =~= miss_notice(symbol));
    let head = "The symbol index resolved no references for `"@ + symbol;
    let middle =
        "`. This does NOT mean there are none -- resolution is known to fail for some methods and struct fields, so treat an index miss as no information rather than as evidence that `"@;
    let tail = symbol + "` is unused.\n"@;
    reveal_strlit(
        "`. This does NOT mean there are none -- resolution is known to fail for some methods and struct fields, so treat an index miss as no information rather than as evidence that `",
    );
    reveal_strlit("does NOT mean there are none");
    reveal_strlit("treat an index miss as no information");
    let first = "does NOT mean there are none"@;
    let second = "treat an index miss as no information"@;
    assert(middle.subrange(8, 36) =~= first);
    assert(middle.subrange(107, 144) =~= second);
    assert(miss_notice(symbol) =~= (head + middle.subrange(0, 8)) + first + (middle.subrange(
        36,
        middle.len() as int,
    ) + tail));
    lemma_contains_part(
        head + middle.subrange(0, 8),
        first,
        middle.subrange(36, middle.len() as int) + tail,
    );
    assert(miss_notice(symbol) =~= (head + middle.subrange(0, 107)) + second + (middle.subrange(
        144,
        middle.len() as int,
    ) + tail));
    lemma_contains_part(
        head + middle.subrange(0, 107),
        second,
        middle.subrange(144, middle.len() as int) + tail,
    );
}

/// The message states the full totals, names every listed file with its full
/// count, and states the size of whatever it leaves out.
pub proof fn an_elision_is_stated(symbol: Seq<char>, scan: ScanResult, i: int)
    requires
        scan.total_hits > 0,
    ensures
        contains(
            rendered_unresolved(symbol, scan),
            totals_notice(scan.total_hits as nat, scan.total_files as nat),
        ),
        0 <= i < scan.files@.len() ==> contains(
            rendered_unresolved(symbol, scan),
            file_line(scan.files@[i]),
        ),
        contains(
            rendered_unresolved(symbol, scan),
            unlisted_notice(scan.total_files as nat, scan.files@.len()),
        ),
        contains(rendered_unresolved(symbol, scan), stopped_notice(scan.walk_truncated)),
        contains(rendered_unresolved(symbol, scan), textual_notice()),
{
    let text = rendered_unresolved(symbol, scan);
    let miss = miss_notice(symbol);
    let totals = totals_notice(scan.total_hits as nat, scan.total_files as nat);
    let listing = file_lines(scan.files@);
    let unlisted = unlisted_notice(scan.total_files as nat, scan.files@.len());
    let stopped = stopped_notice(scan.walk_truncated);
    let last = textual_notice();
    assert(text =~= miss + totals + (listing + unlisted + stopped + last));
    lemma_contains_part(miss, totals, listing + unlisted + stopped + last);
    if 0 <= i < scan.files@.len() {
        lemma_file_lines_contain(scan.files@, i);
        let (before, after) = choose|before: Seq<char>, after: Seq<char>|
            listing == #[trigger] (before + file_line(scan.files@[i]) + after);
        let tail = after + unlisted + stopped + last;
        assert(text =~= (miss + totals + before) + file_line(scan.files@[i]) + tail);
        lemma_contains_part(miss + totals + before, file_line(scan.files@[i]), tail);
    }
    assert(text =~= (miss + totals + listing) + unlisted + (stopped + last));
    lemma_contains_part(miss + totals + listing, unlisted, stopped + last);
    assert(text =~= (miss + totals + listing + unlisted) + stopped + last);
    lemma_contains_part(miss + totals + listing + unlisted, stopped, last);
    assert(text =~= (miss + totals + listing + unlisted + stopped) + last + Seq::empty());
    lemma_contains_part(miss + totals + listing + unlisted + stopped, last, Seq::empty());
}

/// Every reference list says of itself that it is a lower bound.
pub proof fn references_are_a_lower_bound(symbol: Seq<char>, locations: Seq<SymbolLocation>)
    ensures
        crate::text::ends_with(
            resolved_text(Lookup::References, symbol, locations),
            MACRO_CAVEAT@,
        ),
        contains(MACRO_CAVEAT@, "lower bound"@),
        contains(MACRO_CAVEAT@, "macro invocations"@),
{
    let head = rendered(symbol, "References"@, locations);
    let text = head + MACRO_CAVEAT@;
    assert(text.subrange(head.len() as int, text.len() as int) =~= MACRO_CAVEAT@);
    let caveat =
        "\nNote: references inside macro invocations are not indexed (tree-sitter does not parse macro bodies), so anything used only inside `assert_eq!`, `select!`, `stream!` or similar is missing from this list. Treat the count as a lower bound; search textually before concluding a symbol is unused in tests."@;
    reveal_strlit(
        "\nNote: references inside macro invocations are not indexed (tree-sitter does not parse macro bodies), so anything used only inside `assert_eq!`, `select!`, `stream!` or similar is missing from this list. Treat the count as a lower bound; search textually before concluding a symbol is unused in tests.",
    );
    reveal_strlit("lower bound");
    reveal_strlit("macro invocations");
    assert(caveat.subrange(25, 42) =~= "macro invocations"@);
    assert(occurs_at(caveat, "macro invocations"@, 25));
    assert(caveat.subrange(225, 236) =~= "lower bound"@);
    assert(occurs_at(caveat, "lower bound"@, 225));
}

/// All the hits in some files.
pub open spec fn hits_in(files: Seq<(Seq<char>, Seq<char>)>, symbol: Seq<char>) -> nat
    decreases files.len(),
{
    if files.len() == 0 {
        0
    } else {
        hits_in(files.drop_last(), symbol) + matching_lines(files.last().1, symbol).len()
    }
}

/// The files, each a path and a text, that contain the symbol.
pub open spec fn matching_files(files: Seq<(Seq<char>, Seq<char>)>, symbol: Seq<char>) -> Seq<
    (Seq<char>, Seq<char>),
>
    decreases files.len(),
{
    if files.len() == 0 {
        Seq::empty()
    } else {
        let before = matching_files(files.drop_last(), symbol);
        if matching_lines(files.last().1, symbol).len() > 0 {
            before.push(files.last())
        } else {
            before
        }
    }
}

/// The totals of a textual search count every hit in every file it read,
/// however many files are listed; and the listing holds the first matching
/// files, in the order in which they were read, each with all its lines.
pub proof fn totals_are_complete(
    run: Seq<LiteralScan>,
    files: Seq<(Seq<char>, Seq<char>)>,
    symbol: Seq<char>,
)
    requires
        run.len() == files.len() + 1,
        run[0].fresh(),
        forall|i: int|
            0 <= i < files.len() ==> (#[trigger] run[i + 1]).adds(
                run[i],
                files[i].0,
                files[i].1,
                symbol,
            ),
    ensures
        run.last().files_read == files.len(),
        run.last().result.total_hits == hits_in(files, symbol),
        run.last().result.total_files == matching_files(files, symbol).len(),
        run.last().result.files@.len() == if matching_files(files, symbol).len()
            < FALLBACK_REPORT_FILES {
            matching_files(files, symbol).len()
        } else {
            FALLBACK_REPORT_FILES as nat
        },
        forall|k: int|
            0 <= k < run.last().result.files@.len() ==> {
                &&& (#[trigger] run.last().result.files@[k]).0@ == slashed(
                    matching_files(files, symbol)[k].0,
                )
                &&& run.last().result.files@[k].1@ == matching_lines(
                    matching_files(files, symbol)[k].1,
                    symbol,
                )
            },
    decreases files.len(),
{
    if files.len() > 0 {
        let n = files.len() - 1;
        let before = run.drop_last();
        let fewer = files.drop_last();
        assert forall|i: int| 0 <= i < fewer.len() implies (#[trigger] before[i + 1]).adds(
            before[i],
            fewer[i].0,
            fewer[i].1,
            symbol,
        ) by {
            assert(run[i + 1].adds(run[i], files[i].0, files[i].1, symbol));
        }
        totals_are_complete(before, fewer, symbol);
        assert(before.last() == run[n]);
        assert(run[n + 1].adds(run[n], files[n].0, files[n].1, symbol));
        let listed = run.last().result.files@;
        let previous = run[n].result.files@;
        assert forall|k: int| 0 <= k < listed.len() implies {
            &&& (#[trigger] listed[k]).0@ == slashed(matching_files(files, symbol)[k].0)
            &&& listed[k].1@ == matching_lines(matching_files(files, symbol)[k].1, symbol)
        } by {
            if k < previous.len() {
                assert(listed[k] == previous[k]);
            }
        }
    }
}

proof fn lemma_matching_file(
    files: Seq<(Seq<char>, Seq<char>)>,
    symbol: Seq<char>,
    k: int,
) -> (i: int)
    requires
        0 <= k < files.len(),
        matching_lines(files[k].1, symbol).len() > 0,
    ensures
        0 <= i < matching_files(files, symbol).len(),
        matching_files(files, symbol)[i] == files[k],
        hits_in(files, symbol) > 0,
    decreases files.len(),
{
    if k == files.len() - 1 {
        matching_files(files, symbol).len() - 1
    } else {
        lemma_matching_file(files.drop_last(), symbol, k)
    }
}

/// A file that holds the symbol is named: unless more files match than are
/// listed, the answer gives the line of each file that was read and contains
/// the symbol, and never says that nothing was found.
pub proof fn a_matching_file_is_named(
    run: Seq<LiteralScan>,
    files: Seq<(Seq<char>, Seq<char>)>,
    symbol: Seq<char>,
    k: int,
)
    requires
        run.len() == files.len() + 1,
        run[0].fresh(),
        forall|i: int|
            0 <= i < files.len() ==> (#[trigger] run[i + 1]).adds(
                run[i],
                files[i].0,
                files[i].1,
                symbol,
            ),
        0 <= k < files.len(),
        matching_lines(files[k].1, symbol).len() > 0,
        matching_files(files, symbol).len() <= FALLBACK_REPORT_FILES,
    ensures
        run.last().result.total_hits > 0,
        exists|i: int|
            0 <= i < run.last().result.files@.len() && {
                let file = #[trigger] run.last().result.files@[i];
                &&& file.0@ == slashed(files[k].0)
                &&& file.1@ == matching_lines(files[k].1, symbol)
                &&& contains(rendered_unresolved(symbol, run.last().result), file_line(file))
            },
{
    totals_are_complete(run, files, symbol);
    let i = lemma_matching_file(files, symbol, k);
    let scan = run.last().result;
    an_elision_is_stated(symbol, scan, i);
    assert(scan.files@[i].0@ == slashed(files[k].0));
}

/// The request gives something to look up: a whole position, or a name with
/// more than white space in it.
pub open spec fn gives_a_target(input: LspToolInput) -> bool {
    ||| input.file_path is Some && input.line is Some && input.character is Some
    ||| input.query matches Some(query) && exists|i: int|
        0 <= i < query@.len() && !crate::text::white_space(#[trigger] query@[i])
}

proof fn lemma_named(input: LspToolInput)
    ensures
        gives_a_target(input) == (input.has_position() || input.has_name()),
{
    if let Some(query) = input.query {
        let q = query@;
        crate::text::trimming_takes_white_space_only(q);
        let (lead, trail) = choose|lead: Seq<char>, trail: Seq<char>|
            {
                &&& q == #[trigger] (lead + trim(q) + trail)
                &&& forall|i: int|
                    0 <= i < lead.len() ==> crate::text::white_space(#[trigger] lead[i])
                &&& forall|i: int|
                    0 <= i < trail.len() ==> crate::text::white_space(#[trigger] trail[i])
            };
        if trim(q).len() > 0 {
            assert(q[lead.len() as int] == trim(q)[0]);
        } else {
            assert forall|i: int| 0 <= i < q.len() implies crate::text::white_space(
                #[trigger] q[i],
            ) by {
                if i < lead.len() {
                    assert(q[i] == lead[i]);
                } else {
                    assert(q[i] == trail[i - lead.len()]);
                }
            }
        }
    }
}

/// Going to a definition and looking for a symbol in the workspace ask for
/// definitions, and looking for references asks for references, wherever the
/// request gives something to look up. Where it gives nothing, or asks for what
/// needs a language server, the answer is an error.
pub proof fn an_operation_asks_its_table(input: LspToolInput, step: Step)
    requires
        planned(input, step),
    ensures
        match input.operation {
            LspOperation::GoToDefinition | LspOperation::WorkspaceSymbol => if gives_a_target(
                input,
            ) {
                step matches Step::Ask { lookup, .. } && lookup == Lookup::Definitions
            } else {
                step matches Step::Answer(answer) && answer.is_error
            },
            LspOperation::FindReferences => if gives_a_target(input) {
                step matches Step::Ask { lookup, .. } && lookup == Lookup::References
            } else {
                step matches Step::Answer(answer) && answer.is_error
            },
            LspOperation::Hover
            | LspOperation::GoToImplementation
            | LspOperation::DocumentSymbol => step matches Step::Answer(answer) && answer.is_error,
        },
{
    lemma_named(input);
}

/// The index is asked for what the request gives: the position, each part of it
/// counted from one, where all of it is there, and else the name without white
/// space around it.
pub proof fn the_index_is_asked_for_what_was_given(input: LspToolInput, step: Step)
    requires
        planned(input, step),
        step is Ask,
    ensures
        step matches Step::Ask { lookup, target } && match (
            input.file_path,
            input.line,
            input.character,
        ) {
            (Some(path), Some(line), Some(character)) => {
                &&& target matches Target::Position { file, row, col }
                &&& file@ == path@
                &&& row == line + 1
                &&& col == character + 1
            },
            _ => {
                &&& target matches Target::Name(name)
                &&& input.query matches Some(query)
                &&& name@.len() > 0
                &&& name@ == trim(query@)
            },
        },
{
}

/// What can be answered without the index says so: each such answer names the
/// operation, or says what a request must give.
pub proof fn an_early_answer_says_why(input: LspToolInput, step: Step)
    requires
        planned(input, step),
        step is Answer,
    ensures
        step matches Step::Answer(answer) && answer.text@ == match input.operation {
            LspOperation::GoToDefinition
            | LspOperation::WorkspaceSymbol
            | LspOperation::FindReferences =>
                "Provide either `query` (symbol name) or `file_path` + `line` + `character` (0-indexed position)."@,
            LspOperation::Hover => "`"@ + "hover"@
                + "` needs a language server, and none is configured for this workspace. Definitions and references are being served by the built-in symbol index, which does not compute types, documentation or trait implementations. Configure ~/.axon/lsp.json or <cwd>/.axon/lsp.json for full code intelligence."@,
            LspOperation::GoToImplementation => "`"@ + "goToImplementation"@
                + "` needs a language server, and none is configured for this workspace. Definitions and references are being served by the built-in symbol index, which does not compute types, documentation or trait implementations. Configure ~/.axon/lsp.json or <cwd>/.axon/lsp.json for full code intelligence."@,
            LspOperation::DocumentSymbol => "`"@ + "documentSymbol"@
                + "` needs a language server, and none is configured for this workspace. Definitions and references are being served by the built-in symbol index, which does not compute types, documentation or trait implementations. Configure ~/.axon/lsp.json or <cwd>/.axon/lsp.json for full code intelligence."@,
        },
{
}

/// The symbol that is searched for in the text is the one that the index
/// resolved, whether it knew locations for it or not; without one, it is the
/// name that the request gives, if it gives one.
pub proof fn the_resolved_symbol_is_searched_for(
    input: LspToolInput,
    symbol: String,
    locations: Vec<SymbolLocation>,
)
    ensures
        scan_symbol(input, Some((symbol, locations))) == if symbol@.len() > 0 {
            symbol@
        } else {
            scan_symbol(input, None)
        },
        scan_symbol(input, None) == match input.query {
            Some(query) => trim(query@),
            None => Seq::empty(),
        },
{
}

/// A letter, a digit or an underscore of ASCII.
pub open spec fn joins_words(c: char) -> bool {
    ('a' <= c <= 'z') || ('A' <= c <= 'Z') || ('0' <= c <= '9') || c == '_'
}

proof fn lemma_ident_char(c: char)
    ensures
        ident_char(c) == joins_words(c),
{
}

/// A word is found where it stands with nothing beside it that would make it
/// part of a longer one.
pub proof fn a_whole_word_is_found(front: Seq<char>, word: Seq<char>, back: Seq<char>)
    requires
        word.len() > 0,
        front.len() > 0 ==> !joins_words(front.last()),
        back.len() > 0 ==> !joins_words(back[0]),
    ensures
        has_word(front + word + back, word),
{
    let s = front + word + back;
    let i = front.len() as int;
    if front.len() > 0 {
        lemma_ident_char(front.last());
    }
    if back.len() > 0 {
        lemma_ident_char(back[0]);
    }
    assert(s.subrange(i, i + word.len()) =~= word);
    assert(word_at(s, word, i));
}

/// A word that is found stands somewhere with nothing beside it that would make
/// it part of a longer one.
pub proof fn a_found_word_is_whole(s: Seq<char>, word: Seq<char>)
    requires
        has_word(s, word),
    ensures
        word.len() > 0,
        exists|front: Seq<char>, back: Seq<char>|
            {
                &&& s == #[trigger] (front + word + back)
                &&& front.len() > 0 ==> !joins_words(front.last())
                &&& back.len() > 0 ==> !joins_words(back[0])
            },
{
    let i = choose|i: int| word_at(s, word, i);
    let front = s.take(i);
    let back = s.skip(i + word.len());
    if front.len() > 0 {
        lemma_ident_char(front.last());
    }
    if back.len() > 0 {
        lemma_ident_char(back[0]);
    }
    assert(s =~= front + word + back);
}

/// The numbers of the matching lines are those of the lines that hold the
/// symbol, counted from one, each once and in order.
pub proof fn a_matching_line_is_numbered(ls: Seq<Seq<char>>, symbol: Seq<char>, number: int)
    requires
        ls.len() <= usize::MAX,
        1 <= number <= ls.len(),
    ensures
        matching(ls, symbol).contains(number as usize) <==> has_word(ls[number - 1], symbol),
        forall|i: int|
            0 <= i < matching(ls, symbol).len() ==> 1 <= #[trigger] matching(ls, symbol)[i]
                <= ls.len(),
        forall|i: int, j: int|
            0 <= i < j < matching(ls, symbol).len() ==> #[trigger] matching(ls, symbol)[i]
                < #[trigger] matching(ls, symbol)[j],
    decreases ls.len(),
{
    let fewer = ls.drop_last();
    let some = matching(fewer, symbol);
    let all = matching(ls, symbol);
    if fewer.len() > 0 {
        let n = if number <= fewer.len() {
            number
        } else {
            1
        };
        a_matching_line_is_numbered(fewer, symbol, n);
    } else {
        assert(some.len() == 0);
    }
    assert forall|i: int| 0 <= i < all.len() implies 1 <= #[trigger] all[i] <= ls.len() by {
        if i < some.len() {
            assert(1 <= some[i] <= fewer.len());
        }
    }
    assert forall|i: int, j: int| 0 <= i < j < all.len() implies #[trigger] all[i]
        < #[trigger] all[j] by {
        assert(some[i] == all[i]);
        assert(1 <= some[i] <= fewer.len());
        if j < some.len() {
            assert(some[j] == all[j]);
        }
    }
    if number <= fewer.len() {
        if some.contains(number as usize) {
            let i = choose|i: int| 0 <= i < some.len() && some[i] == number as usize;
            assert(all[i] == number as usize);
        }
        if all.contains(number as usize) {
            let i = choose|i: int| 0 <= i < all.len() && all[i] == number as usize;
            assert(some[i] == number as usize);
        }
    } else {
        if has_word(ls[number - 1], symbol) {
            assert(all[all.len() - 1] == number as usize);
        }
        if all.contains(number as usize) {
            let i = choose|i: int| 0 <= i < all.len() && all[i] == number as usize;
            if i < some.len() {
                assert(1 <= some[i] <= fewer.len());
            }
        }
    }
}

/// The lines of a text are searched one by one: the first line, and then the
/// others, whose numbers are one higher than in a text of their own.
pub proof fn a_text_is_searched_line_by_line(
    line: Seq<char>,
    rest: Seq<char>,
    symbol: Seq<char>,
    number: int,
)
    requires
        forall|i: int| 0 <= i < line.len() ==> #[trigger] line[i] != '\n',
        line.len() == 0 || line.last() != '\r',
        lines(rest).len() < usize::MAX,
        1 <= number <= lines(rest).len(),
    ensures
        ({
            let text = line + seq!['\n'] + rest;
            &&& matching_lines(text, symbol).contains(1) <==> has_word(line, symbol)
            &&& matching_lines(text, symbol).contains((number + 1) as usize) <==> matching_lines(
                rest,
                symbol,
            ).contains(number as usize)
        }),
{
    let text = line + seq!['\n'] + rest;
    crate::text::a_line_feed_ends_a_line(line, rest);
    a_matching_line_is_numbered(lines(text), symbol, 1);
    a_matching_line_is_numbered(lines(text), symbol, number + 1);
    a_matching_line_is_numbered(lines(rest), symbol, number);
    assert(lines(text)[0] == line);
    assert(lines(text)[number] == lines(rest)[number - 1]);
}

/// A listed path is the one that was read, with each backslash turned into a
/// slash.
pub proof fn only_backslashes_change(path: Seq<char>, i: int)
    requires
        0 <= i < path.len(),
    ensures
        slashed(path).len() == path.len(),
        path[i] == '\\' ==> slashed(path)[i] == '/',
        path[i] != '\\' ==> slashed(path)[i] == path[i],
{
}

/// A search reads at most 5000 files and lists at most 60: all that match, while
/// they are no more.
pub proof fn a_search_is_bounded(scan: LiteralScan)
    requires
        scan.wf(),
    ensures
        scan.files_read <= 5000,
        scan.result.files@.len() <= 60,
        scan.result.total_files <= 60 ==> scan.result.files@.len() == scan.result.total_files,
        scan.result.total_files > 60 ==> scan.result.files@.len() == 60,
{
}

/// A file counts once, however many lines of it match, and each of these lines
/// counts as a hit; a file without a match changes nothing but the number of
/// files read.
pub proof fn a_file_is_counted(
    after: LiteralScan,
    before: LiteralScan,
    path: Seq<char>,
    text: Seq<char>,
    symbol: Seq<char>,
)
    requires
        after.adds(before, path, text, symbol),
    ensures
        after.files_read == before.files_read + 1,
        after.result.walk_truncated == before.result.walk_truncated,
        after.result.total_hits == before.result.total_hits + matching_lines(text, symbol).len(),
        matching_lines(text, symbol).len() == 0 ==> {
            &&& after.result.total_files == before.result.total_files
            &&& after.result.files@ == before.result.files@
        },
        matching_lines(text, symbol).len() > 0 ==> {
            &&& after.result.total_files == before.result.total_files + 1
            &&& before.result.files@.len() < 60 ==> {
                &&& after.result.files@.len() == before.result.files@.len() + 1
                &&& after.result.files@.last().0@ == slashed(path)
                &&& after.result.files@.last().1@ == matching_lines(text, symbol)
            }
            &&& before.result.files@.len() >= 60 ==> after.result.files@ == before.result.files@
        },
        forall|i: int|
            0 <= i < before.result.files@.len() ==> #[trigger] after.result.files@[i]
                == before.result.files@[i],
{
    if after.result.files@.len() > before.result.files@.len() {
        assert forall|i: int| 0 <= i < before.result.files@.len() implies #[trigger] after.result.files@[i]
            == before.result.files@[i] by {
            assert(after.result.files@.drop_last()[i] == after.result.files@[i]);
        }
    }
}

/// The locations are listed one to a line, in the order of the index, each with
/// its path and line; the listing of two lists is the one after the other.
pub proof fn locations_are_listed_in_order(
    a: Seq<SymbolLocation>,
    b: Seq<SymbolLocation>,
    one: SymbolLocation,
)
    ensures
        location_lines(Seq::empty()).len() == 0,
        location_lines(seq![one]) == "  "@ + one.path@ + ":"@ + decimal(one.line as nat) + "\n"@,
        location_lines(a + b) == location_lines(a) + location_lines(b),
    decreases b.len(),
{
    assert(seq![one].drop_last() =~= Seq::empty());
    assert(location_lines(seq![one].drop_last()).len() == 0);
    assert(location_lines(seq![one]) =~= "  "@ + one.path@ + ":"@ + decimal(one.line as nat)
        + "\n"@);
    if b.len() == 0 {
        assert(a + b =~= a);
        assert(location_lines(a) + location_lines(b) =~= location_lines(a));
    } else {
        locations_are_listed_in_order(a, b.drop_last(), one);
        assert((a + b).drop_last() =~= a + b.drop_last());
        assert((a + b).last() == b.last());
        assert(location_lines(a + b) =~= location_lines(a) + location_lines(b));
    }
}

/// The answer says what was looked up, of which symbol and how many locations
/// there are, and lists them. Only references carry the caveat.
pub proof fn an_answer_says_what_it_lists(symbol: Seq<char>, locations: Seq<SymbolLocation>)
    ensures
        resolved_text(Lookup::Definitions, symbol, locations) == "Definitions"@ + " of `"@ + symbol
            + "` ("@ + decimal(locations.len()) + "):\n"@ + location_lines(locations),
        resolved_text(Lookup::References, symbol, locations) == "References"@ + " of `"@ + symbol
            + "` ("@ + decimal(locations.len()) + "):\n"@ + location_lines(locations)
            + "\nNote: references inside macro invocations are not indexed (tree-sitter does not parse macro bodies), so anything used only inside `assert_eq!`, `select!`, `stream!` or similar is missing from this list. Treat the count as a lower bound; search textually before concluding a symbol is unused in tests."@,
{
}

/// Numbers are listed in order with commas between them.
pub proof fn numbers_are_listed_in_order(numbers: Seq<usize>, last: usize)
    ensures
        joined(Seq::empty()).len() == 0,
        joined(seq![last]) == decimal(last as nat),
        numbers.len() > 0 ==> joined(numbers.push(last)) == joined(numbers) + ", "@ + decimal(
            last as nat,
        ),
{
    assert(numbers.push(last).drop_last() =~= numbers);
}

/// The line of a file gives its path, how many of its lines match, and the first
/// twelve of these; where there are more, it says how many it leaves out.
pub proof fn a_file_line_is_complete(file: (String, Vec<usize>))
    ensures
        file.1@.len() <= 12 ==> file_line(file) == "  "@ + file.0@ + " ("@ + decimal(file.1@.len())
            + "): "@ + joined(file.1@) + "\n"@,
        file.1@.len() > 12 ==> file_line(file) == "  "@ + file.0@ + " ("@ + decimal(file.1@.len())
            + "): "@ + joined(file.1@.take(12)) + ", +"@ + decimal((file.1@.len() - 12) as nat)
            + " more"@ + "\n"@,
{
    let head = "  "@ + file.0@ + " ("@ + decimal(file.1@.len()) + "): "@;
    if file.1@.len() <= 12 {
        assert(head + joined(file.1@) + Seq::<char>::empty() =~= head + joined(file.1@));
    } else {
        let more = ", +"@ + decimal((file.1@.len() - 12) as nat) + " more"@;
        assert(file_line(file) =~= head + joined(file.1@.take(12)) + ", +"@ + decimal(
            (file.1@.len() - 12) as nat,
        ) + " more"@ + "\n"@);
    }
}

/// The files are listed one to a line, in the order in which they were read.
pub proof fn files_are_listed_in_order(
    a: Seq<(String, Vec<usize>)>,
    b: Seq<(String, Vec<usize>)>,
    one: (String, Vec<usize>),
)
    ensures
        file_lines(Seq::empty()).len() == 0,
        file_lines(seq![one]) == file_line(one),
        file_lines(a + b) == file_lines(a) + file_lines(b),
    decreases b.len(),
{
    assert(seq![one].drop_last() =~= Seq::empty());
    assert(file_lines(seq![one].drop_last()).len() == 0);
    assert(file_lines(seq![one]) =~= file_line(one));
    if b.len() == 0 {
        assert(a + b =~= a);
        assert(file_lines(a) + file_lines(b) =~= file_lines(a));
    } else {
        files_are_listed_in_order(a, b.drop_last(), one);
        assert((a + b).drop_last() =~= a + b.drop_last());
        assert((a + b).last() == b.last());
        assert(file_lines(a + b) =~= file_lines(a) + file_lines(b));
    }
}

/// Without a hit, the answer says that the textual search found nothing, and
/// whether it was cut short; with hits, it gives both totals, the listed files,
/// how many are not listed, and whether the counts are lower bounds.
#[verifier::rlimit(40)]
pub proof fn an_unresolved_answer_is_spelled_out(symbol: Seq<char>, scan: ScanResult)
    ensures
        scan.total_hits == 0 && !scan.walk_truncated ==> rendered_unresolved(symbol, scan)
            == miss_notice(symbol) + ("A whole-word textual search also found no occurrences"@
            + ""@ + ", which is stronger evidence, but still confirm before treating `"@ + symbol
            + "` as dead.\n"@),
        scan.total_hits == 0 && scan.walk_truncated ==> rendered_unresolved(symbol, scan)
            == miss_notice(symbol) + ("A whole-word textual search also found no occurrences"@
            + " in the files searched (the search itself was cut short, so this is not exhaustive)"@
            + ", which is stronger evidence, but still confirm before treating `"@ + symbol
            + "` as dead.\n"@),
        scan.total_hits > 0 ==> rendered_unresolved(symbol, scan) == miss_notice(symbol) + (
        "\nFalling back to a whole-word textual search: "@ + decimal(scan.total_hits as nat)
            + " occurrence(s) across "@ + decimal(scan.total_files as nat) + " file(s).\n"@)
            + file_lines(scan.files@) + (if scan.total_files > scan.files@.len() {
            "  ... and "@ + decimal((scan.total_files - scan.files@.len()) as nat)
                + " further file(s) not listed.\n"@
        } else {
            Seq::empty()
        }) + (if scan.walk_truncated {
            "  (The search stopped early, so these counts are lower bounds.)\n"@
        } else {
            Seq::empty()
        })
            + "\nThese are textual matches, not resolved references: they include the definition, comments and same-named symbols on other types.\n"@,
        miss_notice(symbol) == "The symbol index resolved no references for `"@ + symbol
            + "`. This does NOT mean there are none -- resolution is known to fail for some methods and struct fields, so treat an index miss as no information rather than as evidence that `"@
            + symbol + "` is unused.\n"@,
        failed_scan_notice(symbol) == "The symbol index resolved nothing for `"@ + symbol
            + "`, and the textual fallback search failed to run. This is not evidence that `"@
            + symbol + "` is unused -- no search completed. Retry, or search manually."@,
        nameless_notice()
            == "The symbol index resolved nothing at this position, and without a symbol name no textual search was run. This is not evidence that the symbol is unused -- no search completed. Retry with `query` set to the symbol name, or search manually."@,
{
}

// ---- What the functions give ----

/// A request is planned as its operation says, for the target that it gives.
pub proof fn a_request_is_planned_as_its_operation_says(input: &LspToolInput, r: Step)
    requires
        call_ensures(plan, (input,), r),
        input.position_fits(),
    ensures
        (input.operation is GoToDefinition || input.operation is WorkspaceSymbol)
            && gives_a_target(*input) ==> (r matches Step::Ask { lookup, .. } && lookup
            is Definitions),
        input.operation is FindReferences && gives_a_target(*input) ==> (r matches Step::Ask {
            lookup,
            ..
        } && lookup is References),
        r is Ask ==> gives_a_target(*input) && (input.operation is GoToDefinition
            || input.operation is WorkspaceSymbol || input.operation is FindReferences),
        r matches Step::Answer(answer) ==> answer.is_error,
        r matches Step::Ask { target, .. } ==> match (
            input.file_path,
            input.line,
            input.character,
        ) {
            (Some(path), Some(line), Some(character)) => {
                &&& target matches Target::Position { file, row, col }
                &&& file@ == path@
                &&& row == line + 1
                &&& col == character + 1
            },
            _ => {
                &&& target matches Target::Name(name)
                &&& input.query matches Some(query)
                &&& name@ == trim(query@)
            },
        },
{
    an_operation_asks_its_table(*input, r);
    if r is Ask {
        the_index_is_asked_for_what_was_given(*input, r);
    }
}

/// What a request gives is looked up: a whole position first, counted from one,
/// and else a name that is more than white space.
pub proof fn a_target_is_resolved(input: &LspToolInput, r: Option<Target>, symbol: String)
    requires
        call_ensures(resolve_target, (input,), r),
        call_ensures(target_symbol, (input,), symbol),
        input.position_fits(),
    ensures
        r is Some <==> gives_a_target(*input),
        r matches Some(target) ==> match (input.file_path, input.line, input.character) {
            (Some(path), Some(line), Some(character)) => {
                &&& target matches Target::Position { file, row, col }
                &&& file@ == path@
                &&& row == line + 1
                &&& col == character + 1
            },
            _ => {
                &&& target matches Target::Name(name)
                &&& input.query matches Some(query)
                &&& name@ == trim(query@)
            },
        },
        symbol@ == match input.query {
            Some(query) => trim(query@),
            None => Seq::empty(),
        },
{
    lemma_named(*input);
}

/// A reply with locations is the answer, titled by what was asked; one without
/// is none, and the text is then searched for the symbol that it names, or else
/// for the one that the request names.
pub proof fn a_reply_with_locations_is_the_answer(
    lookup: Lookup,
    symbol: String,
    locations: Vec<SymbolLocation>,
    r: Option<LspToolResult>,
    nothing: Option<LspToolResult>,
    input: &LspToolInput,
    found: &Option<(String, Vec<SymbolLocation>)>,
    searched: String,
)
    requires
        call_ensures(conclude, (lookup, Some((symbol, locations))), r),
        call_ensures(conclude, (lookup, None), nothing),
        call_ensures(fallback_symbol, (input, found), searched),
    ensures
        locations@.len() == 0 ==> r is None,
        nothing is None,
        locations@.len() > 0 ==> (r matches Some(answer) && !answer.is_error && match lookup {
            Lookup::Definitions => answer.text@ == "Definitions"@ + " of `"@ + symbol@ + "` ("@
                + decimal(locations@.len()) + "):\n"@ + location_lines(locations@),
            Lookup::References => answer.text@ == "References"@ + " of `"@ + symbol@ + "` ("@
                + decimal(locations@.len()) + "):\n"@ + location_lines(locations@) + MACRO_CAVEAT@,
        }),
        *found matches Some((resolved, _)) ==> (resolved@.len() > 0 ==> searched@ == resolved@),
        *found is None ==> searched@ == match input.query {
            Some(query) => trim(query@),
            None => Seq::empty(),
        },
{
    an_answer_says_what_it_lists(symbol@, locations@);
}

/// A word counts where it stands alone, and the lines that hold it are numbered
/// from one.
pub proof fn a_text_is_searched_for_whole_words(
    text: &str,
    symbol: &str,
    holds: bool,
    r: Vec<usize>,
    number: int,
    b: u8,
    joins: bool,
)
    requires
        call_ensures(contains_word, (text, symbol), holds),
        call_ensures(scan_text, (text, symbol), r),
        call_ensures(is_ident_byte, (b,), joins),
        lines(text@).len() <= usize::MAX,
        1 <= number <= lines(text@).len(),
    ensures
        holds ==> symbol@.len() > 0 && contains(text@, symbol@),
        holds <==> has_word(text@, symbol@),
        r@.contains(number as usize) <==> has_word(lines(text@)[number - 1], symbol@),
        joins <==> (48 <= b <= 57 || 65 <= b <= 90 || 97 <= b <= 122 || b == 95),
{
    a_matching_line_is_numbered(lines(text@), symbol@, number);
    if holds {
        let i = choose|i: int| word_at(text@, symbol@, i);
        assert(occurs_at(text@, symbol@, i));
    }
}

/// The locations are listed below a title that counts them, and a miss of the
/// index is never answered with a bare nothing.
pub proof fn answers_are_spelled_out(
    symbol: &str,
    label: &str,
    locations: &[SymbolLocation],
    list: String,
    scan: &ScanResult,
    unresolved: String,
    fallback: LspToolResult,
    failed: LspToolResult,
)
    requires
        call_ensures(render, (symbol, label, locations), list),
        call_ensures(render_unresolved, (symbol, scan), unresolved),
        call_ensures(fallback_result, (symbol, Some(scan)), fallback),
        call_ensures(fallback_result, (symbol, None), failed),
    ensures
        list@ == label@ + " of `"@ + symbol@ + "` ("@ + decimal(locations@.len()) + "):\n"@
            + location_lines(locations@),
        unresolved@ == rendered_unresolved(symbol@, *scan),
        symbol@.len() > 0 ==> fallback.text@ == unresolved@ && !fallback.is_error,
        symbol@.len() > 0 ==> failed.text@ == failed_scan_notice(symbol@),
        symbol@.len() == 0 ==> fallback.text@ == nameless_notice() && fallback.is_error,
        failed.is_error,
{
}

/// The small values are what they are made of.
pub proof fn small_values_hold_what_they_are_given(
    path: &str,
    line: usize,
    location: SymbolLocation,
    op: &LspOperation,
    refused: LspToolResult,
    missing: LspToolResult,
    name: &'static str,
    scan: LiteralScan,
)
    requires
        call_ensures(SymbolLocation::new, (path, line), location),
        call_ensures(unsupported, (op,), refused),
        call_ensures(missing_target, (), missing),
        call_ensures(LspOperation::name, (op,), name),
        call_ensures(LiteralScan::new, (), scan),
    ensures
        location.path@ == path@,
        location.line == line,
        refused.is_error && missing.is_error,
        refused.text@ == "`"@ + name@
            + "` needs a language server, and none is configured for this workspace. Definitions and references are being served by the built-in symbol index, which does not compute types, documentation or trait implementations. Configure ~/.axon/lsp.json or <cwd>/.axon/lsp.json for full code intelligence."@,
        missing.text@
            == "Provide either `query` (symbol name) or `file_path` + `line` + `character` (0-indexed position)."@,
        scan.files_read == 0,
        scan.result.files@.len() == 0,
        scan.result.total_hits == 0,
        scan.result.total_files == 0,
        !scan.result.walk_truncated,
        FALLBACK_FILE_LIMIT == 5000,
{
}

/// A search goes on until it has read 5000 files; then it stops and says so, and
/// what it found stays.
pub proof fn a_search_stops_at_its_limit(scan: &mut LiteralScan, r: bool)
    requires
        call_ensures(LiteralScan::wants_more, (scan,), r),
    ensures
        r <==> old(scan).files_read < 5000,
        final(scan).files_read == old(scan).files_read,
        final(scan).result.files@ == old(scan).result.files@,
        final(scan).result.total_hits == old(scan).result.total_hits,
        final(scan).result.total_files == old(scan).result.total_files,
        final(scan).result.walk_truncated <==> (old(scan).result.walk_truncated || !r),
{
}

/// Searching a file counts it as read and each of its matching lines as a hit,
/// and lists it, with all these lines, while fewer than 60 files are listed.
pub proof fn a_searched_file_is_counted(
    scan: &mut LiteralScan,
    path: &str,
    text: &str,
    symbol: &str,
)
    requires
        call_ensures(LiteralScan::add_file, (scan, path, text, symbol), ()),
        old(scan).wf(),
        old(scan).files_read < 5000,
        old(scan).result.total_hits + matching_lines(text@, symbol@).len() <= usize::MAX,
    ensures
        ({
            let found = matching_lines(text@, symbol@);
            let before = old(scan).result;
            let after = final(scan).result;
            &&& final(scan).files_read == old(scan).files_read + 1
            &&& after.walk_truncated == before.walk_truncated
            &&& after.total_hits == before.total_hits + found.len()
            &&& found.len() == 0 ==> after.total_files == before.total_files && after.files@
                == before.files@
            &&& found.len() > 0 ==> after.total_files == before.total_files + 1
            &&& found.len() > 0 && before.files@.len() < 60 ==> {
                &&& after.files@.len() == before.files@.len() + 1
                &&& after.files@.last().0@ == slashed(path@)
                &&& after.files@.last().1@ == found
            }
            &&& before.files@.len() >= 60 ==> after.files@ == before.files@
        }),
{
    a_file_is_counted(*final(scan), *old(scan), path@, text@, symbol@);
}

} // verus!
