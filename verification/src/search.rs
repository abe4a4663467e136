//! The decisions of hybrid memory search: which chunks carry content, which
//! candidates two result lists hold and at what ranks, which chunks age, and
//! which scored candidates are returned and in what order.
//!
//! Scores are computed elsewhere in floating point. Here a score is the 64-bit
//! pattern of a double, and only its order matters (see [`order_key`]).

use vstd::prelude::*;

use crate::text::{
    chars_of, contains, find_from, is_white_space, lemma_find_from, lemma_find_none,
    lemma_trim_start_is, lines, position_from, same, split_lines, trim, trim_start,
    trimmed, views,
};

verus! {

// ---- Content-free chunks ----

/// Sources that hold curated long-term knowledge.
pub open spec fn evergreen(source: Seq<char>) -> bool {
    source == "global"@ || source == "workspace"@
}

/// Whether a source contains curated long-term knowledge and should not be
/// penalized by temporal decay.
///
/// Evergreen: `"global"` (MEMORY.md), `"workspace"` (project MEMORY.md).
/// Decaying: `"session"` (auto-generated session logs).
pub fn is_evergreen_source(source: &str) -> (r: bool)
    ensures
        r == evergreen(source@),
{
    same(source, "global") || same(source, "workspace")
}

/// `t` begins with a heading mark of `n` signs: `n` number signs, followed by
/// a space, a tab or the end. This is the ATX rule, except that a heading may
/// be indented by any white space.
pub open spec fn heading_mark(t: Seq<char>, n: int) -> bool {
    &&& 1 <= n <= 6
    &&& n <= t.len()
    &&& forall|i: int| 0 <= i < n ==> t[i] == '#'
    &&& n == t.len() || t[n] == ' ' || t[n] == '\t'
}

/// A line that is an ATX heading of level `n`, indented or not.
pub open spec fn heading(line: Seq<char>, n: int) -> bool {
    heading_mark(trim_start(line), n)
}

/// A line that is an ATX heading of some level.
pub open spec fn is_heading(line: Seq<char>) -> bool {
    exists|n: int| heading(line, n)
}

/// The level of the ATX heading that a line is, if it is one.
pub fn header_level(line: &[char]) -> (r: Option<usize>)
    ensures
        match r {
            Some(n) => heading(line@, n as int),
            None => !is_heading(line@),
        },
{
    let mut from: usize = 0;
    while from < line.len() && is_white_space(line[from])
        invariant
            from <= line@.len(),
            forall|i: int| 0 <= i < from ==> crate::text::white_space(line@[i]),
        decreases line@.len() - from,
    {
        from += 1;
    }
    let ghost t = line@.skip(from as int);
    proof {
        lemma_trim_start_is(line@, from as int);
    }
    let mut n: usize = 0;
    while n < line.len() - from && line[from + n] == '#'
        invariant
            from <= line@.len(),
            n <= line@.len() - from,
            t == line@.skip(from as int),
            forall|i: int| 0 <= i < n ==> t[i] == '#',
        decreases line@.len() - from - n,
    {
        n += 1;
    }
    assert forall|m: int| heading_mark(t, m) implies m == n by {
        if m < n {
            assert(t[m] == '#');
        }
        if n < m {
            assert(t[n as int] == '#');
        }
    }
    if n == 0 || n > 6 {
        return None;
    }
    if n == line.len() - from || line[from + n] == ' ' || line[from + n] == '\t' {
        Some(n)
    } else {
        None
    }
}

/// What is left of `s` from `at` on when its comments are cut out. A comment
/// that is never closed stays, with all that follows it.
pub open spec fn uncommented_from(s: Seq<char>, at: int) -> Seq<char>
    decreases s.len() - at,
    when 0 <= at <= s.len()
    via uncommented_decreases
{
    match find_from(s, "<!--"@, at) {
        None => s.skip(at),
        Some(start) => match find_from(s, "-->"@, start + 4) {
            None => s.skip(at),
            Some(end) => s.subrange(at, start) + uncommented_from(s, end + 3),
        },
    }
}

#[via_fn]
proof fn uncommented_decreases(s: Seq<char>, at: int) {
    lemma_comment_bounds(s, at);
}

proof fn lemma_comment_bounds(s: Seq<char>, at: int)
    requires
        0 <= at <= s.len(),
    ensures
        find_from(s, "<!--"@, at) matches Some(start) ==> {
            &&& at <= start
            &&& start + 4 <= s.len()
            &&& find_from(s, "-->"@, start + 4) matches Some(end) ==> start + 4 <= end && end + 3
                <= s.len()
        },
{
    reveal_strlit("<!--");
    reveal_strlit("-->");
    lemma_find_from(s, "<!--"@, at);
    if let Some(start) = find_from(s, "<!--"@, at) {
        lemma_find_from(s, "-->"@, start + 4);
    }
}

/// A text without its comments.
pub open spec fn uncommented(s: Seq<char>) -> Seq<char> {
    uncommented_from(s, 0)
}

fn without_comments(s: &[char]) -> (r: Vec<char>)
    ensures
        r@ == uncommented(s@),
{
    let opening = chars_of("<!--");
    let closing = chars_of("-->");
    let mut out: Vec<char> = Vec::new();
    let n: usize = s.len();
    let mut at: usize = 0;
    let mut open = true;
    while open
        invariant
            n == s@.len(),
            at <= n,
            opening@ == "<!--"@,
            closing@ == "-->"@,
            open ==> out@ + uncommented_from(s@, at as int) == uncommented(s@),
            !open ==> out@ + s@.skip(at as int) == uncommented(s@),
        decreases s@.len() - at + (if open {
            1int
        } else {
            0int
        }),
    {
        proof {
            lemma_comment_bounds(s@, at as int);
        }
        open = false;
        if let Some(start) = position_from(s, &opening, at) {
            if let Some(end) = position_from(s, &closing, start + 4) {
                let ghost before = out@;
                append_range(&mut out, s, at, start);
                proof {
                    assert(before + (s@.subrange(at as int, start as int) + uncommented_from(
                        s@,
                        end + 3,
                    )) =~= out@ + uncommented_from(s@, end + 3));
                }
                at = end + 3;
                open = true;
            }
        }
    }
    append_range(&mut out, s, at, n);
    assert(s@.subrange(at as int, s@.len() as int) =~= s@.skip(at as int));
    out
}

fn append_range(out: &mut Vec<char>, s: &[char], from: usize, to: usize)
    requires
        from <= to <= s@.len(),
    ensures
        final(out)@ == old(out)@ + s@.subrange(from as int, to as int),
{
    let mut i: usize = from;
    while i < to
        invariant
            from <= i <= to <= s@.len(),
            out@ == old(out)@ + s@.subrange(from as int, i as int),
        decreases to - i,
    {
        out.push(s[i]);
        i += 1;
        assert(out@ =~= old(out)@ + s@.subrange(from as int, i as int));
    }
}

/// A line without content of its own: white space, or a heading.
pub open spec fn scaffold_line(line: Seq<char>) -> bool {
    trim(line).len() == 0 || is_heading(line)
}

/// Every line is blank or a heading.
pub open spec fn scaffold_lines(text: Seq<char>) -> bool {
    forall|k: int| 0 <= k < lines(text).len() ==> scaffold_line(#[trigger] lines(text)[k])
}

fn is_scaffold_line(line: &[char]) -> (r: bool)
    ensures
        r == scaffold_line(line@),
{
    trimmed(line).len() == 0 || header_level(line).is_some()
}

fn scaffolding(text: &[char]) -> (r: bool)
    ensures
        r == scaffold_lines(text@),
{
    let ls = split_lines(text);
    let mut k: usize = 0;
    while k < ls.len()
        invariant
            k <= ls@.len(),
            ls@.len() == lines(text@).len(),
            forall|i: int| 0 <= i < ls@.len() ==> (#[trigger] ls@[i])@ == lines(text@)[i],
            forall|i: int| 0 <= i < k ==> scaffold_line(#[trigger] lines(text@)[i]),
        decreases ls@.len() - k,
    {
        if !is_scaffold_line(&ls[k]) {
            assert(!scaffold_line(lines(text@)[k as int]));
            return false;
        }
        k += 1;
    }
    true
}

/// Whether every non-blank line is an ATX heading. Any other non-blank line is
/// content.
pub fn lines_are_scaffolding(text: &str) -> (r: bool)
    ensures
        r == scaffold_lines(text@),
{
    scaffolding(&chars_of(text))
}

/// Whether `text` has no substantive content after stripping ATX headings,
/// HTML comments, and whitespace. Blockquotes are not stripped: they are real
/// user content.
pub fn is_structurally_empty(text: &str) -> (r: bool)
    ensures
        r == scaffold_lines(uncommented(text@)),
{
    scaffolding(&without_comments(&chars_of(text)))
}

/// A phrase of the stubs that memory files are created from.
///
/// The phrases are an assumption about the wording of those stubs: a stub with
/// other words is not known, and a line that quotes one of these is.
pub open spec fn template_phrase(line: Seq<char>) -> bool {
    ||| contains(line, "This file is automatically managed by Axon's memory system"@)
    ||| contains(line, "You can also edit it manually"@)
    ||| contains(line, "Add any cross-project preferences here"@)
    ||| contains(line, "Auto-populated by dream consolidation"@)
}

/// A text of which nothing but a template's own lines is left. That a template
/// is told line by line is an assumption as well.
pub open spec fn scaffold_template(text: Seq<char>) -> bool {
    forall|k: int|
        0 <= k < lines(uncommented(text)).len() ==> {
            let line = #[trigger] lines(uncommented(text))[k];
            scaffold_line(line) || template_phrase(line)
        }
}

fn has(line: &[char], phrase: &str) -> (r: bool)
    ensures
        r == contains(line@, phrase@),
{
    proof {
        lemma_find_none(line@, phrase@);
    }
    position_from(line, &chars_of(phrase), 0).is_some()
}

/// Whether a text is a template that nobody has written into: each line is
/// blank, a heading, or one of the template's own phrases.
pub fn is_scaffold_template(text: &str) -> (r: bool)
    ensures
        r == scaffold_template(text@),
{
    let rest = without_comments(&chars_of(text));
    let ls = split_lines(&rest);
    let ghost all = lines(uncommented(text@));
    let mut k: usize = 0;
    while k < ls.len()
        invariant
            k <= ls@.len(),
            all == lines(uncommented(text@)),
            ls@.len() == all.len(),
            forall|i: int| 0 <= i < ls@.len() ==> (#[trigger] ls@[i])@ == all[i],
            forall|i: int|
                0 <= i < k ==> scaffold_line(#[trigger] all[i]) || template_phrase(all[i]),
        decreases ls@.len() - k,
    {
        let line = &ls[k];
        if !(is_scaffold_line(line) || has(
            line,
            "This file is automatically managed by Axon's memory system",
        ) || has(line, "You can also edit it manually") || has(
            line,
            "Add any cross-project preferences here",
        ) || has(line, "Auto-populated by dream consolidation")) {
            assert(!scaffold_line(all[k as int]) && !template_phrase(all[k as int]));
            return false;
        }
        k += 1;
    }
    true
}

/// A chunk without content.
pub open spec fn content_free(text: Seq<char>, source: Seq<char>) -> bool {
    scaffold_lines(uncommented(text)) || (evergreen(source) && scaffold_template(text))
}

/// Whether a chunk is an empty or boilerplate template (such as the
/// auto-generated `MEMORY.md` stub) and should be filtered out.
///
/// The template branch is scoped to evergreen sources, where templates live,
/// so a session chunk that merely quotes a template's phrase is kept.
pub fn is_content_free(text: &str, source: &str) -> (r: bool)
    ensures
        r == content_free(text@, source@),
{
    is_structurally_empty(text) || (is_evergreen_source(source) && is_scaffold_template(text))
}

// ---- Candidates ----

/// How many candidates each list is asked for.
pub fn candidate_limit(max_results: usize) -> (r: usize)
    requires
        max_results * 3 <= usize::MAX,
    ensures
        r == max_results * 3,
{
    max_results * 3
}

/// One of `ids` is `id`.
pub open spec fn listed(ids: Seq<String>, id: Seq<char>) -> bool {
    exists|k: int| 0 <= k < ids.len() && (#[trigger] ids[k])@ == id
}

/// The positions in `extra` of the ids that `ids` does not hold, in order.
pub open spec fn missing_from(ids: Seq<String>, extra: Seq<String>) -> Seq<usize>
    decreases extra.len(),
{
    if extra.len() == 0 {
        Seq::empty()
    } else {
        let before = missing_from(ids, extra.drop_last());
        if listed(ids, extra.last()@) {
            before
        } else {
            before.push((extra.len() - 1) as usize)
        }
    }
}

fn is_listed(ids: &[String], id: &str) -> (r: bool)
    ensures
        r == listed(ids@, id@),
{
    let mut k: usize = 0;
    while k < ids.len()
        invariant
            k <= ids@.len(),
            forall|i: int| 0 <= i < k ==> (#[trigger] ids@[i])@ != id@,
        decreases ids@.len() - k,
    {
        if same(ids[k].as_str(), id) {
            assert(ids@[k as int]@ == id@);
            return true;
        }
        k += 1;
    }
    false
}

/// Which hits of the supplemental evergreen query are appended to the keyword
/// hits: those whose id is not among them yet. The answer holds positions in
/// `evergreen`, so that global and workspace chunks are not crowded out by
/// session volume.
pub fn supplement(found: &[String], evergreen: &[String]) -> (r: Vec<usize>)
    ensures
        r@ == missing_from(found@, evergreen@),
{
    let mut out: Vec<usize> = Vec::new();
    let mut k: usize = 0;
    assert(evergreen@.take(0) =~= Seq::empty());
    while k < evergreen.len()
        invariant
            k <= evergreen@.len(),
            out@ == missing_from(found@, evergreen@.take(k as int)),
        decreases evergreen@.len() - k,
    {
        proof {
            let t = evergreen@.take(k + 1);
            assert(t.drop_last() =~= evergreen@.take(k as int));
            assert(t.last() == evergreen@[k as int]);
        }
        if !is_listed(found, evergreen[k].as_str()) {
            out.push(k);
        }
        k += 1;
    }
    assert(evergreen@.take(k as int) =~= evergreen@);
    out
}

/// An entry of a result list, best first. An entry that is not `on` belongs to
/// a source that is switched off, and contributes nothing.
#[derive(Debug)]
pub struct Listed {
    pub id: String,
    pub on: bool,
}

/// A chunk of either list, with its ranks in both, counted from one.
#[derive(Debug)]
pub struct Merged {
    pub id: String,
    pub text: Vec<usize>,
    pub vector: Vec<usize>,
}

/// The ranks, counted from one, at which `id` contributes to a list.
pub open spec fn ranks(list: Seq<Listed>, id: Seq<char>) -> Seq<usize>
    decreases list.len(),
{
    if list.len() == 0 {
        Seq::empty()
    } else {
        let before = ranks(list.drop_last(), id);
        if list.last().on && list.last().id@ == id {
            before.push(list.len() as usize)
        } else {
            before
        }
    }
}

/// `seen`, followed by the ids that contribute to `list` and are not in it, in
/// the order in which they first appear.
pub open spec fn first_seen(list: Seq<Listed>, seen: Seq<Seq<char>>) -> Seq<Seq<char>>
    decreases list.len(),
{
    if list.len() == 0 {
        seen
    } else {
        let before = first_seen(list.drop_last(), seen);
        if list.last().on && !before.contains(list.last().id@) {
            before.push(list.last().id@)
        } else {
            before
        }
    }
}

/// The ids that contribute to either list, each once.
pub open spec fn merged_ids(text: Seq<Listed>, vector: Seq<Listed>) -> Seq<Seq<char>> {
    first_seen(vector, first_seen(text, Seq::empty()))
}

fn ranks_of(list: &[Listed], id: &str) -> (r: Vec<usize>)
    ensures
        r@ == ranks(list@, id@),
{
    let mut out: Vec<usize> = Vec::new();
    let n: usize = list.len();
    let mut k: usize = 0;
    assert(list@.take(0) =~= Seq::empty());
    while k < n
        invariant
            k <= n,
            n == list@.len(),
            out@ == ranks(list@.take(k as int), id@),
        decreases n - k,
    {
        proof {
            let t = list@.take(k + 1);
            assert(t.drop_last() =~= list@.take(k as int));
            assert(t.last() == list@[k as int]);
        }
        if list[k].on && same(list[k].id.as_str(), id) {
            out.push(k + 1);
        }
        k += 1;
    }
    assert(list@.take(k as int) =~= list@);
    out
}

fn note_ids(list: &[Listed], seen: Vec<String>) -> (r: Vec<String>)
    ensures
        views(r@) == first_seen(list@, views(seen@)),
{
    let ghost start = views(seen@);
    let mut out: Vec<String> = seen;
    let mut k: usize = 0;
    assert(list@.take(0) =~= Seq::empty());
    while k < list.len()
        invariant
            k <= list@.len(),
            views(out@) == first_seen(list@.take(k as int), start),
        decreases list@.len() - k,
    {
        proof {
            let t = list@.take(k + 1);
            assert(t.drop_last() =~= list@.take(k as int));
            assert(t.last() == list@[k as int]);
        }
        let known = is_listed(&out, list[k].id.as_str());
        proof {
            let id = list@[k as int].id@;
            if known {
                let i = choose|i: int| 0 <= i < out@.len() && (#[trigger] out@[i])@ == id;
                assert(views(out@)[i] == id);
            } else {
                assert forall|i: int| 0 <= i < out@.len() implies views(out@)[i] != id by {
                    assert(views(out@)[i] == out@[i]@);
                }
            }
        }
        if list[k].on && !known {
            let ghost before = out@;
            out.push(list[k].id.as_str().to_owned());
            assert(views(out@) =~= views(before).push(list@[k as int].id@));
        }
        k += 1;
    }
    assert(list@.take(k as int) =~= list@);
    out
}

/// Merge two result lists by chunk id: each chunk that contributes to either,
/// with every rank at which it does.
pub fn merge_lists(text: &[Listed], vector: &[Listed]) -> (r: Vec<Merged>)
    ensures
        r@.len() == merged_ids(text@, vector@).len(),
        forall|k: int|
            #![trigger r@[k]]
            0 <= k < r@.len() ==> {
                &&& r@[k].id@ == merged_ids(text@, vector@)[k]
                &&& r@[k].text@ == ranks(text@, r@[k].id@)
                &&& r@[k].vector@ == ranks(vector@, r@[k].id@)
            },
{
    let empty: Vec<String> = Vec::new();
    assert(views(empty@) =~= Seq::empty());
    let ids = note_ids(vector, note_ids(text, empty));
    let ghost all = merged_ids(text@, vector@);
    let mut out: Vec<Merged> = Vec::new();
    let mut k: usize = 0;
    assert(ids@.len() == all.len());
    while k < ids.len()
        invariant
            k == out@.len(),
            k <= ids@.len(),
            all == merged_ids(text@, vector@),
            views(ids@) == all,
            ids@.len() == all.len(),
            forall|i: int|
                #![trigger out@[i]]
                0 <= i < k ==> {
                    &&& out@[i].id@ == all[i]
                    &&& out@[i].text@ == ranks(text@, out@[i].id@)
                    &&& out@[i].vector@ == ranks(vector@, out@[i].id@)
                },
        decreases ids@.len() - k,
    {
        let id = ids[k].as_str();
        assert(views(ids@)[k as int] == ids@[k as int]@);
        out.push(
            Merged { id: id.to_owned(), text: ranks_of(text, id), vector: ranks_of(vector, id) },
        );
        k += 1;
    }
    out
}

/// How two result lists become one.
#[derive(Debug, Clone, Copy, PartialEq, Eq, Structural)]
pub enum Fusion {
    /// Weighted scores.
    Weighted,
    /// Reciprocal ranks, into which the weight of the source goes.
    Rrf,
}

impl Default for Fusion {
    fn default() -> (r: Self)
        ensures
            r == Fusion::Weighted,
    {
        Fusion::Weighted
    }
}

/// Whether the weight of the source still applies to a fused score. Rank fusion
/// has used it up: to apply it again would count it twice.
pub fn weight_applies(fusion: Fusion) -> (r: bool)
    ensures
        r == (fusion == Fusion::Weighted),
{
    match fusion {
        Fusion::Weighted => true,
        Fusion::Rrf => false,
    }
}

/// How the base score of a chunk is made from its two signals.
#[derive(Debug, Clone, Copy, PartialEq, Eq, Structural)]
pub enum BaseScore {
    /// Both signals: the weighted combination, but never worse than the
    /// keyword score alone.
    Combined,
    /// The keyword score alone, at full weight.
    TextOnly,
    /// The weighted vector score.
    VectorOnly,
}

/// Which formula applies, given which of the two scores are positive. A chunk
/// with a keyword match is never penalized because other chunks have vectors.
pub fn base_score(text_positive: bool, vector_positive: bool) -> (r: BaseScore)
    ensures
        r == if text_positive && vector_positive {
            BaseScore::Combined
        } else if text_positive {
            BaseScore::TextOnly
        } else {
            BaseScore::VectorOnly
        },
{
    if text_positive && vector_positive {
        BaseScore::Combined
    } else if text_positive {
        BaseScore::TextOnly
    } else {
        BaseScore::VectorOnly
    }
}

// ---- Temporal decay ----

/// The age of a chunk in seconds: none before the epoch, none in the future.
pub open spec fn age(created_at: int, now: int) -> int {
    let since = if created_at < 0 {
        now
    } else {
        now - created_at
    };
    if since < 0 {
        0
    } else {
        since
    }
}

/// The age by which a chunk decays, or `None` where it does not: decay is off
/// (no half-life, or one that is not above zero), or the source is evergreen.
pub fn decay_age(source: &str, created_at: i64, now: i64, decays: bool) -> (r: Option<i64>)
    requires
        now - (if created_at < 0 {
            0
        } else {
            created_at as int
        }) >= i64::MIN,
    ensures
        r is Some == (decays && !evergreen(source@)),
        r matches Some(seconds) ==> seconds == age(created_at as int, now as int),
{
    if !decays || is_evergreen_source(source) {
        return None;
    }
    let since: i64 = if created_at < 0 {
        now
    } else {
        now - created_at
    };
    Some(
        if since < 0 {
            0
        } else {
            since
        },
    )
}

// ---- Selection ----

/// The bit pattern of 1.0.
pub const ONE: u64 = 4607182418800017408;

/// The bit pattern of infinity; above it, apart from the sign, stand the NaNs.
pub const INFINITY: u64 = 9218868437227405312;

/// The sign bit.
pub const SIGN: u64 = 9223372036854775808;

/// The integer by which a double is ordered, given its bit pattern; a NaN has
/// none. The two zeros are one.
pub open spec fn order_key(bits: u64) -> Option<int> {
    if bits < SIGN {
        if bits <= INFINITY {
            Some(bits as int)
        } else {
            None
        }
    } else if bits - SIGN <= INFINITY {
        Some(-(bits - SIGN))
    } else {
        None
    }
}

fn key_of(bits: u64) -> (r: Option<i64>)
    ensures
        match r {
            Some(k) => order_key(bits) == Some(k as int),
            None => order_key(bits) is None,
        },
{
    if bits < SIGN {
        if bits <= INFINITY {
            Some(bits as i64)
        } else {
            None
        }
    } else {
        let magnitude: u64 = bits - SIGN;
        if magnitude <= INFINITY {
            Some(-(magnitude as i64))
        } else {
            None
        }
    }
}

/// A score brought into the range from zero to one.
pub open spec fn clamped(bits: u64) -> u64 {
    match order_key(bits) {
        None => bits,
        Some(k) => if k < 0 {
            0
        } else if k > ONE {
            ONE
        } else {
            bits
        },
    }
}

/// `a` is at least `b`. A NaN is at least nothing.
pub open spec fn at_least(a: u64, b: u64) -> bool {
    match (order_key(a), order_key(b)) {
        (Some(x), Some(y)) => x >= y,
        _ => false,
    }
}

/// The score that is shown for a raw score: clamped to the range from zero to
/// one.
pub fn display_score(bits: u64) -> (r: u64)
    ensures
        r == clamped(bits),
{
    match key_of(bits) {
        None => bits,
        Some(k) => if k < 0 {
            0
        } else if k > ONE as i64 {
            ONE
        } else {
            bits
        },
    }
}

fn reaches(a: u64, b: u64) -> (r: bool)
    ensures
        r == at_least(a, b),
{
    match (key_of(a), key_of(b)) {
        (Some(x), Some(y)) => x >= y,
        _ => false,
    }
}

/// A scored chunk, as the index holds it, and its unclamped score.
#[derive(Debug)]
pub struct Candidate {
    pub chunk_id: String,
    pub path: String,
    pub start_line: usize,
    pub end_line: usize,
    pub text: String,
    pub source: String,
    pub created_at: i64,
    pub raw: u64,
}

/// A selected chunk: its position among the candidates, the unclamped score it
/// is ranked by, and the clamped score that is shown.
#[derive(Debug)]
pub struct Ranked {
    pub index: usize,
    pub raw: u64,
    pub display: u64,
}

/// A candidate that is returned: it has content, and the score that is shown
/// for it reaches the threshold.
pub open spec fn selected(candidate: Candidate, min_score: u64) -> bool {
    !content_free(candidate.text@, candidate.source@) && at_least(
        clamped(candidate.raw),
        min_score,
    )
}

/// `a` stands before `b`: its unclamped score is higher, or the two are equal
/// and it was the earlier candidate.
pub open spec fn before(a: Ranked, b: Ranked) -> bool {
    ||| order_key(a.raw)->0 > order_key(b.raw)->0
    ||| order_key(a.raw)->0 == order_key(b.raw)->0 && a.index < b.index
}

/// The ranking of some candidates.
pub open spec fn ranking(r: Seq<Ranked>, candidates: Seq<Candidate>, min_score: u64) -> bool {
    &&& forall|i: int|
        #![trigger r[i]]
        0 <= i < r.len() ==> {
            &&& r[i].index < candidates.len()
            &&& selected(candidates[r[i].index as int], min_score)
            &&& r[i].raw == candidates[r[i].index as int].raw
            &&& r[i].display == clamped(r[i].raw)
        }
    &&& forall|k: int|
        0 <= k < candidates.len() && selected(#[trigger] candidates[k], min_score) ==> exists|
            i: int,
        |
            0 <= i < r.len() && (#[trigger] r[i]).index == k
    &&& forall|i: int, j: int| 0 <= i < j < r.len() ==> before(#[trigger] r[i], #[trigger] r[j])
}

fn place(out: &mut Vec<Ranked>, item: Ranked)
    requires
        order_key(item.raw) is Some,
        forall|i: int|
            0 <= i < old(out)@.len() ==> order_key((#[trigger] old(out)@[i]).raw) is Some
                && old(out)@[i].index < item.index,
        forall|i: int, j: int|
            0 <= i < j < old(out)@.len() ==> before(
                #[trigger] old(out)@[i],
                #[trigger] old(out)@[j],
            ),
    ensures
        exists|at: int|
            0 <= at <= old(out)@.len() && #[trigger] old(out)@.insert(at, item) == final(out)@,
        forall|i: int, j: int|
            0 <= i < j < final(out)@.len() ==> before(
                #[trigger] final(out)@[i],
                #[trigger] final(out)@[j],
            ),
{
    let mut at: usize = out.len();
    while at > 0 && !reaches(out[at - 1].raw, item.raw)
        invariant
            at <= out@.len(),
            out@ == old(out)@,
            order_key(item.raw) is Some,
            forall|i: int|
                0 <= i < out@.len() ==> order_key((#[trigger] out@[i]).raw) is Some && out@[i].index
                    < item.index,
            forall|i: int| at <= i < out@.len() ==> before(item, #[trigger] out@[i]),
        decreases at,
    {
        at -= 1;
    }
    let ghost old_out = out@;
    proof {
        let placed = old_out.insert(at as int, item);
        assert forall|i: int, j: int| 0 <= i < j < placed.len() implies before(
            #[trigger] placed[i],
            #[trigger] placed[j],
        ) by {
            if i < at && j == at {
                let last = old_out[at - 1];
                assert(at_least(last.raw, item.raw));
                assert(before(last, item));
                if i < at - 1 {
                    assert(before(old_out[i], old_out[at - 1]));
                }
            }
        }
    }
    out.insert(at, item);
    assert(old_out.insert(at as int, item) =~= out@);
}

/// Select and rank scored chunks. Content-free chunks are skipped. The
/// threshold is held against the score that is shown, so that the two agree;
/// the order goes by the unclamped score, so that chunks whose shown scores
/// are both one are still told apart.
pub fn rank(candidates: &[Candidate], min_score: u64) -> (r: Vec<Ranked>)
    ensures
        ranking(r@, candidates@, min_score),
{
    let mut out: Vec<Ranked> = Vec::new();
    let mut k: usize = 0;
    while k < candidates.len()
        invariant
            k <= candidates@.len(),
            forall|i: int|
                #![trigger out@[i]]
                0 <= i < out@.len() ==> {
                    &&& out@[i].index < k
                    &&& selected(candidates@[out@[i].index as int], min_score)
                    &&& out@[i].raw == candidates@[out@[i].index as int].raw
                    &&& out@[i].display == clamped(out@[i].raw)
                },
            forall|m: int|
                0 <= m < k && selected(#[trigger] candidates@[m], min_score) ==> exists|i: int|
                    0 <= i < out@.len() && (#[trigger] out@[i]).index == m,
            forall|i: int, j: int|
                0 <= i < j < out@.len() ==> before(#[trigger] out@[i], #[trigger] out@[j]),
        decreases candidates@.len() - k,
    {
        let candidate = &candidates[k];
        let display: u64 = display_score(candidate.raw);
        if !is_content_free(candidate.text.as_str(), candidate.source.as_str()) && reaches(
            display,
            min_score,
        ) {
            let ghost previous = out@;
            let ghost item = Ranked { index: k, raw: candidate.raw, display };
            place(&mut out, Ranked { index: k, raw: candidate.raw, display });
            proof {
                let at = choose|at: int|
                    0 <= at <= previous.len() && #[trigger] previous.insert(at, item) == out@;
                assert(out@[at] == item);
                assert forall|i: int| 0 <= i < out@.len() implies (out@[i] == item || exists|j: int|
                    0 <= j < previous.len() && #[trigger] previous[j] == #[trigger] out@[i]) by {
                    if i < at {
                        assert(previous[i] == out@[i]);
                    } else if i > at {
                        assert(previous[i - 1] == out@[i]);
                    }
                }
                assert forall|m: int|
                    0 <= m < k + 1 && selected(#[trigger] candidates@[m], min_score) implies exists|
                    i: int,
                |
                    0 <= i < out@.len() && (#[trigger] out@[i]).index == m by {
                    if m == k {
                        assert(out@[at].index == m);
                    } else {
                        let j = choose|j: int|
                            0 <= j < previous.len() && (#[trigger] previous[j]).index == m;
                        if j < at {
                            assert(out@[j].index == m);
                        } else {
                            assert(out@[j + 1].index == m);
                        }
                    }
                }
            }
        }
        k += 1;
    }
    out
}

/// A search result. Its score is the one that is shown.
#[derive(Debug)]
pub struct SearchResult {
    pub chunk_id: String,
    pub path: String,
    pub start_line: usize,
    pub end_line: usize,
    pub score: u64,
    pub snippet: String,
    pub source: String,
    pub created_at: i64,
}

impl SearchResult {
    /// This is the result for a candidate that was given a rank.
    pub open spec fn shows(self, candidate: Candidate, ranked: Ranked) -> bool {
        &&& self.chunk_id@ == candidate.chunk_id@
        &&& self.path@ == candidate.path@
        &&& self.start_line == candidate.start_line
        &&& self.end_line == candidate.end_line
        &&& self.score == ranked.display
        &&& self.snippet@ == candidate.text@
        &&& self.source@ == candidate.source@
        &&& self.created_at == candidate.created_at
    }
}

/// The results for ranked candidates, in the order of the ranking.
pub fn results_of(candidates: &[Candidate], ranked: &[Ranked]) -> (r: Vec<SearchResult>)
    requires
        forall|i: int| 0 <= i < ranked@.len() ==> (#[trigger] ranked@[i]).index < candidates@.len(),
    ensures
        r@.len() == ranked@.len(),
        forall|i: int|
            0 <= i < r@.len() ==> (#[trigger] r@[i]).shows(
                candidates@[ranked@[i].index as int],
                ranked@[i],
            ),
{
    let mut out: Vec<SearchResult> = Vec::new();
    let mut i: usize = 0;
    while i < ranked.len()
        invariant
            i <= ranked@.len(),
            out@.len() == i,
            forall|j: int|
                0 <= j < ranked@.len() ==> (#[trigger] ranked@[j]).index < candidates@.len(),
            forall|j: int|
                0 <= j < i ==> (#[trigger] out@[j]).shows(
                    candidates@[ranked@[j].index as int],
                    ranked@[j],
                ),
        decreases ranked@.len() - i,
    {
        assert(ranked@[i as int].index < candidates@.len());
        let candidate = &candidates[ranked[i].index];
        out.push(
            SearchResult {
                chunk_id: candidate.chunk_id.as_str().to_owned(),
                path: candidate.path.as_str().to_owned(),
                start_line: candidate.start_line,
                end_line: candidate.end_line,
                score: ranked[i].display,
                snippet: candidate.text.as_str().to_owned(),
                source: candidate.source.as_str().to_owned(),
                created_at: candidate.created_at,
            },
        );
        i += 1;
    }
    out
}

/// The first `max_results` of some items.
pub open spec fn first_of<T>(items: Seq<T>, max_results: nat) -> Seq<T> {
    if items.len() <= max_results {
        items
    } else {
        items.take(max_results as int)
    }
}

/// Keep at most `max_results` of what was ranked, the first ones.
pub fn limited<T>(ranked: Vec<T>, max_results: usize) -> (r: Vec<T>)
    ensures
        r@ == first_of(ranked@, max_results as nat),
        r@.len() <= max_results,
{
    let mut out = ranked;
    if out.len() > max_results {
        out.truncate(max_results);
    }
    out
}

/// Search results without re-ranking: the candidates that are selected, ranked,
/// and cut to `max_results`.
pub fn search_results(candidates: &[Candidate], min_score: u64, max_results: usize) -> (r: Vec<
    SearchResult,
>)
    ensures
        exists|ranked: Seq<Ranked>|
            {
                &&& #[trigger] ranking(ranked, candidates@, min_score)
                &&& r@.len() == first_of(ranked, max_results as nat).len()
                &&& forall|i: int|
                    0 <= i < r@.len() ==> (#[trigger] r@[i]).shows(
                        candidates@[ranked[i].index as int],
                        ranked[i],
                    )
            },
        r@.len() <= max_results,
{
    let ranked = rank(candidates, min_score);
    let ghost all = ranked@;
    let results = results_of(candidates, &limited(ranked, max_results));
    assert(ranking(all, candidates@, min_score));
    results
}

// ---- Laws ----

/// A text in which no comment is both opened and closed loses nothing: a
/// comment split across a chunk boundary cannot drop real content.
pub proof fn an_unclosed_comment_keeps_the_text(text: Seq<char>)
    requires
        !contains(text, "<!--"@) || !contains(text, "-->"@),
    ensures
        uncommented(text) == text,
{
    lemma_find_from(text, "<!--"@, 0);
    if let Some(start) = find_from(text, "<!--"@, 0) {
        lemma_find_from(text, "-->"@, start + 4);
        if let Some(end) = find_from(text, "-->"@, start + 4) {
            assert(crate::text::occurs_at(text, "<!--"@, start));
            assert(crate::text::occurs_at(text, "-->"@, end));
        }
    }
    assert(text.skip(0) =~= text);
}

/// A phrase of a template makes no difference to a chunk of a source that is
/// not evergreen.
pub proof fn templates_are_known_only_to_evergreen_sources(text: Seq<char>, source: Seq<char>)
    requires
        !evergreen(source),
    ensures
        content_free(text, source) == scaffold_lines(uncommented(text)),
{
}

/// What is content-free in a session is content-free everywhere.
pub proof fn structure_counts_for_every_source(text: Seq<char>, source: Seq<char>, other: Seq<char>)
    requires
        !evergreen(source),
        content_free(text, source),
    ensures
        content_free(text, other),
{
}

/// The supplemental hits that are appended are exactly those whose id is
/// missing, in the order of the supplemental query.
pub proof fn supplement_adds_what_is_missing(found: Seq<String>, extra: Seq<String>)
    requires
        extra.len() <= usize::MAX,
    ensures
        forall|i: int|
            0 <= i < missing_from(found, extra).len() ==> {
                let at = #[trigger] missing_from(found, extra)[i] as int;
                at < extra.len() && !listed(found, extra[at]@)
            },
        forall|k: int|
            0 <= k < extra.len() && !listed(found, (#[trigger] extra[k])@) ==> missing_from(
                found,
                extra,
            ).contains(k as usize),
        forall|i: int, j: int|
            0 <= i < j < missing_from(found, extra).len() ==> #[trigger] missing_from(found, extra)[i] < #[trigger] missing_from(
                found,
                extra,
            )[j],
    decreases extra.len(),
{
    if extra.len() > 0 {
        let fewer = extra.drop_last();
        supplement_adds_what_is_missing(found, fewer);
        let before = missing_from(found, fewer);
        let all = missing_from(found, extra);
        assert forall|i: int| 0 <= i < all.len() implies {
            let at = #[trigger] all[i] as int;
            at < extra.len() && !listed(found, extra[at]@)
        } by {
            if i < before.len() {
                let at = before[i] as int;
                assert(at < fewer.len() && !listed(found, fewer[at]@));
            }
        }
        assert forall|k: int|
            0 <= k < extra.len() && !listed(found, (#[trigger] extra[k])@) implies all.contains(
            k as usize,
        ) by {
            if k < fewer.len() {
                assert(fewer[k] == extra[k]);
                assert(before.contains(k as usize));
                let i = choose|i: int| 0 <= i < before.len() && before[i] == k as usize;
                assert(all[i] == k as usize);
            } else {
                assert(all[all.len() - 1] == k as usize);
            }
        }
        assert forall|i: int, j: int| 0 <= i < j < all.len() implies #[trigger] all[i]
            < #[trigger] all[j] by {
            if j < before.len() {
                assert(before[i] < before[j]);
            } else {
                let at = before[i] as int;
                assert(at < fewer.len());
            }
        }
    }
}

proof fn lemma_first_seen(list: Seq<Listed>, seen: Seq<Seq<char>>, id: Seq<char>)
    requires
        seen.no_duplicates(),
    ensures
        first_seen(list, seen).no_duplicates(),
        first_seen(list, seen).contains(id) <==> (seen.contains(id) || ranks(list, id).len() > 0),
    decreases list.len(),
{
    if list.len() > 0 {
        let before = first_seen(list.drop_last(), seen);
        let last = list.last().id@;
        lemma_first_seen(list.drop_last(), seen, id);
        lemma_first_seen(list.drop_last(), seen, last);
        if list.last().on && !before.contains(last) {
            let after = before.push(last);
            assert(after[before.len() as int] == last);
            assert forall|x: Seq<char>| before.contains(x) implies after.contains(x) by {
                let i = choose|i: int| 0 <= i < before.len() && before[i] == x;
                assert(after[i] == x);
            }
            assert(after.contains(last));
        }
    }
}

/// The merged lists hold each chunk that contributes to either list, once, and
/// no other.
pub proof fn merging_keeps_every_contributor_once(
    text: Seq<Listed>,
    vector: Seq<Listed>,
    id: Seq<char>,
)
    ensures
        merged_ids(text, vector).no_duplicates(),
        merged_ids(text, vector).contains(id) <==> (ranks(text, id).len() > 0 || ranks(
            vector,
            id,
        ).len() > 0),
{
    lemma_first_seen(text, Seq::empty(), id);
    lemma_first_seen(vector, first_seen(text, Seq::empty()), id);
}

/// A chunk has one rank in a list for each entry of it that contributes, and
/// the rank is the place of that entry, counted from one.
pub proof fn a_rank_is_a_place(list: Seq<Listed>, id: Seq<char>, place: int)
    requires
        list.len() <= usize::MAX,
        1 <= place <= list.len(),
    ensures
        ranks(list, id).contains(place as usize) <==> (list[place - 1].on && list[place - 1].id@
            == id),
    decreases list.len(),
{
    lemma_ranks_bounded(list.drop_last(), id);
    let before = ranks(list.drop_last(), id);
    let all = ranks(list, id);
    if place < list.len() {
        a_rank_is_a_place(list.drop_last(), id, place);
        if before.contains(place as usize) {
            let i = choose|i: int| 0 <= i < before.len() && before[i] == place as usize;
            assert(all[i] == place as usize);
        }
        if all.contains(place as usize) {
            let i = choose|i: int| 0 <= i < all.len() && all[i] == place as usize;
            assert(i < before.len());
            assert(before[i] == place as usize);
        }
    } else {
        if list.last().on && list.last().id@ == id {
            assert(all[all.len() - 1] == place as usize);
        }
    }
}

proof fn lemma_ranks_bounded(list: Seq<Listed>, id: Seq<char>)
    requires
        list.len() <= usize::MAX,
    ensures
        forall|i: int| 0 <= i < ranks(list, id).len() ==> 1 <= #[trigger] ranks(list, id)[i] <= list.len(),
    decreases list.len(),
{
    if list.len() > 0 {
        lemma_ranks_bounded(list.drop_last(), id);
        let before = ranks(list.drop_last(), id);
        assert forall|i: int| 0 <= i < ranks(list, id).len() implies 1 <= #[trigger] ranks(
            list,
            id,
        )[i] <= list.len() by {
            if i < before.len() {
                assert(1 <= before[i] <= list.len());
            }
        }
    }
}

/// A chunk of a later date is never older, a chunk of the future has age zero,
/// and no chunk has a negative age.
pub proof fn age_falls_with_the_date(created_at: int, later: int, now: int)
    requires
        created_at <= later,
    ensures
        age(created_at, now) >= age(later, now) >= 0,
        later >= 0 && later >= now ==> age(later, now) == 0,
{
}

/// A score that is shown lies between zero and one.
pub proof fn shown_scores_lie_in_range(bits: u64)
    requires
        order_key(bits) is Some,
    ensures
        order_key(clamped(bits)) matches Some(k) && 0 <= k <= ONE,
{
}

/// Clamping keeps the order of two scores.
pub proof fn clamping_keeps_order(a: u64, b: u64)
    requires
        at_least(a, b),
    ensures
        at_least(clamped(a), clamped(b)),
{
}

/// A candidate whose unclamped score is higher stands first, also where the
/// scores that are shown are equal; so the shown scores never rise along the
/// ranking.
pub proof fn a_higher_score_stands_first(
    r: Seq<Ranked>,
    candidates: Seq<Candidate>,
    min_score: u64,
    i: int,
    j: int,
)
    requires
        ranking(r, candidates, min_score),
        0 <= i < r.len(),
        0 <= j < r.len(),
    ensures
        order_key(r[i].raw)->0 > order_key(r[j].raw)->0 ==> i < j,
        i <= j ==> at_least(r[i].display, r[j].display),
{
    lemma_ranked_has_key(r, candidates, min_score, i);
    lemma_ranked_has_key(r, candidates, min_score, j);
    if i < j {
        assert(before(r[i], r[j]));
    }
    if j < i {
        assert(before(r[j], r[i]));
    }
    if i <= j {
        clamping_keeps_order(r[i].raw, r[j].raw);
    }
}

proof fn lemma_ranked_has_key(
    r: Seq<Ranked>,
    candidates: Seq<Candidate>,
    min_score: u64,
    i: int,
)
    requires
        ranking(r, candidates, min_score),
        0 <= i < r.len(),
    ensures
        order_key(r[i].raw) is Some,
{
    assert(selected(candidates[r[i].index as int], min_score));
}

/// No content-free chunk is returned, whatever its score; and what is returned
/// reaches the threshold with the score that is shown.
pub proof fn nothing_without_content_is_returned(
    r: Seq<Ranked>,
    candidates: Seq<Candidate>,
    min_score: u64,
    i: int,
)
    requires
        ranking(r, candidates, min_score),
        0 <= i < r.len(),
    ensures
        !content_free(
            candidates[r[i].index as int].text@,
            candidates[r[i].index as int].source@,
        ),
        at_least(r[i].display, min_score),
{
    assert(selected(candidates[r[i].index as int], min_score));
}

proof fn lemma_same_index(
    r: Seq<Ranked>,
    s: Seq<Ranked>,
    candidates: Seq<Candidate>,
    min_score: u64,
    i: int,
) -> (j: int)
    requires
        ranking(r, candidates, min_score),
        ranking(s, candidates, min_score),
        0 <= i < r.len(),
    ensures
        0 <= j < s.len(),
        s[j] == r[i],
{
    let k = r[i].index as int;
    assert(selected(candidates[k], min_score));
    let j = choose|j: int| 0 <= j < s.len() && (#[trigger] s[j]).index == k;
    assert(s[j].raw == candidates[k].raw);
    j
}

proof fn lemma_same_prefix(
    r: Seq<Ranked>,
    s: Seq<Ranked>,
    candidates: Seq<Candidate>,
    min_score: u64,
    n: int,
)
    requires
        ranking(r, candidates, min_score),
        ranking(s, candidates, min_score),
        0 <= n <= r.len(),
    ensures
        n <= s.len(),
        forall|i: int| 0 <= i < n ==> #[trigger] r[i] == s[i],
    decreases n,
{
    if n > 0 {
        lemma_same_prefix(r, s, candidates, min_score, n - 1);
        let i = n - 1;
        let j = lemma_same_index(r, s, candidates, min_score, i);
        if j < i {
            assert(r[j] == s[j]);
            assert(before(r[j], r[i]));
        }
        if j > i {
            let m = lemma_same_index(s, r, candidates, min_score, i);
            if m < i {
                assert(r[m] == s[m]);
                assert(before(s[m], s[i]));
            }
            assert(before(s[i], s[j]));
            if m > i {
                assert(before(r[i], r[m]));
            }
        }
    }
}

/// The ranking of some candidates is determined by them and the threshold.
pub proof fn a_ranking_is_unique(
    r: Seq<Ranked>,
    s: Seq<Ranked>,
    candidates: Seq<Candidate>,
    min_score: u64,
)
    requires
        ranking(r, candidates, min_score),
        ranking(s, candidates, min_score),
    ensures
        r == s,
{
    lemma_same_prefix(r, s, candidates, min_score, r.len() as int);
    lemma_same_prefix(s, r, candidates, min_score, s.len() as int);
    assert(r =~= s);
}

/// What a search returns: at most `max_results` entries, of different
/// candidates, each with content, a score between zero and one that reaches
/// the threshold, and everything else as the index holds it. Where no two
/// candidates have the same chunk id, no two results have.
pub proof fn results_keep_what_a_search_promises(
    results: Seq<SearchResult>,
    ranked: Seq<Ranked>,
    candidates: Seq<Candidate>,
    min_score: u64,
    max_results: nat,
    i: int,
    j: int,
)
    requires
        ranking(ranked, candidates, min_score),
        results.len() == first_of(ranked, max_results).len(),
        forall|k: int|
            0 <= k < results.len() ==> (#[trigger] results[k]).shows(
                candidates[ranked[k].index as int],
                ranked[k],
            ),
        forall|a: int, b: int|
            0 <= a < b < candidates.len() ==> (#[trigger] candidates[a]).chunk_id@ != (
            #[trigger] candidates[b]).chunk_id@,
        0 <= i < results.len(),
        0 <= j < results.len(),
    ensures
        results.len() <= max_results,
        i != j ==> results[i].chunk_id@ != results[j].chunk_id@,
        !content_free(results[i].snippet@, results[i].source@),
        order_key(results[i].score) matches Some(k) && 0 <= k <= ONE,
        at_least(results[i].score, min_score),
        i <= j ==> at_least(results[i].score, results[j].score),
{
    assert(results[i].shows(candidates[ranked[i].index as int], ranked[i]));
    assert(results[j].shows(candidates[ranked[j].index as int], ranked[j]));
    nothing_without_content_is_returned(ranked, candidates, min_score, i);
    lemma_ranked_has_key(ranked, candidates, min_score, i);
    shown_scores_lie_in_range(ranked[i].raw);
    a_higher_score_stands_first(ranked, candidates, min_score, i, j);
    assert(ranked[i].index < candidates.len() && ranked[j].index < candidates.len());
    if i < j {
        assert(before(ranked[i], ranked[j]));
    }
    if j < i {
        assert(before(ranked[j], ranked[i]));
    }
    let a = ranked[i].index as int;
    let b = ranked[j].index as int;
    if a == b {
        assert(ranked[i].raw == ranked[j].raw);
    }
    if a != b {
        assert(candidates[a].chunk_id@ != candidates[b].chunk_id@);
    }
}

/// A candidate is ranked exactly where it has content and the score that is
/// shown for it reaches the threshold. Nothing else about it plays a part.
pub proof fn content_and_score_decide(
    r: Seq<Ranked>,
    candidates: Seq<Candidate>,
    min_score: u64,
    k: int,
)
    requires
        ranking(r, candidates, min_score),
        0 <= k < candidates.len(),
    ensures
        (exists|i: int| 0 <= i < r.len() && (#[trigger] r[i]).index == k) <==> {
            &&& !content_free(candidates[k].text@, candidates[k].source@)
            &&& at_least(clamped(candidates[k].raw), min_score)
        },
{
    if exists|i: int| 0 <= i < r.len() && (#[trigger] r[i]).index == k {
        let i = choose|i: int| 0 <= i < r.len() && (#[trigger] r[i]).index == k;
        assert(selected(candidates[r[i].index as int], min_score));
    }
}

/// Two candidates with the same text, source and score are both ranked or both
/// not, wherever they stand in their files and whatever else they hold.
pub proof fn equal_content_is_treated_equally(
    r: Seq<Ranked>,
    candidates: Seq<Candidate>,
    min_score: u64,
    a: int,
    b: int,
)
    requires
        ranking(r, candidates, min_score),
        0 <= a < candidates.len(),
        0 <= b < candidates.len(),
        candidates[a].text@ == candidates[b].text@,
        candidates[a].source@ == candidates[b].source@,
        candidates[a].raw == candidates[b].raw,
    ensures
        (exists|i: int| 0 <= i < r.len() && (#[trigger] r[i]).index == a) <==> (exists|i: int|
            0 <= i < r.len() && (#[trigger] r[i]).index == b),
{
    content_and_score_decide(r, candidates, min_score, a);
    content_and_score_decide(r, candidates, min_score, b);
}

/// A ranked entry carries the score of its candidate as it is, and shows it
/// brought into the range from zero to one. No candidate is ranked twice, and
/// of two with equal scores the earlier one stands first.
pub proof fn a_ranked_entry_carries_its_score(
    r: Seq<Ranked>,
    candidates: Seq<Candidate>,
    min_score: u64,
    i: int,
    j: int,
)
    requires
        ranking(r, candidates, min_score),
        0 <= i < r.len(),
        0 <= j < r.len(),
    ensures
        r[i].index < candidates.len(),
        r[i].raw == candidates[r[i].index as int].raw,
        at_least(r[i].raw, 0) && at_least(0x3ff0_0000_0000_0000, r[i].raw) ==> r[i].display
            == r[i].raw,
        !at_least(0x3ff0_0000_0000_0000, r[i].raw) ==> r[i].display == 0x3ff0_0000_0000_0000,
        !at_least(r[i].raw, 0) ==> r[i].display == 0,
        r[i].index == r[j].index ==> i == j,
        r[i].raw == r[j].raw && r[i].index < r[j].index ==> i < j,
        !at_least(r[j].raw, r[i].raw) ==> i < j,
{
    lemma_ranked_has_key(r, candidates, min_score, i);
    lemma_ranked_has_key(r, candidates, min_score, j);
    a_pattern_orders_as_its_double(r[i].raw, 0x3ff0_0000_0000_0000);
    if i < j {
        assert(before(r[i], r[j]));
    }
    if j < i {
        assert(before(r[j], r[i]));
    }
}

/// Patterns are ordered as the doubles that they stand for. Up to infinity,
/// positive ones grow with their pattern and negative ones fall with it; every
/// positive one is at least every negative one, the two zeros are equal, and a
/// NaN is at least nothing and nothing is at least it.
pub proof fn a_pattern_orders_as_its_double(a: u64, b: u64)
    ensures
        a <= 0x7ff0_0000_0000_0000 && b <= 0x7ff0_0000_0000_0000 ==> at_least(a, b) == (a >= b),
        0x8000_0000_0000_0000 <= a <= 0xfff0_0000_0000_0000 && 0x8000_0000_0000_0000 <= b
            <= 0xfff0_0000_0000_0000 ==> at_least(a, b) == (a <= b),
        a <= 0x7ff0_0000_0000_0000 && 0x8000_0000_0000_0000 <= b <= 0xfff0_0000_0000_0000 ==> {
            &&& at_least(a, b)
            &&& at_least(b, a) == (a == 0 && b == 0x8000_0000_0000_0000)
        },
        0x7ff0_0000_0000_0000 < a < 0x8000_0000_0000_0000 || a > 0xfff0_0000_0000_0000 ==> {
            &&& !at_least(a, b)
            &&& !at_least(b, a)
        },
{
}

/// Clamping leaves a score between zero and one as it is, and brings a lower
/// one to zero and a higher one to one.
pub proof fn clamping_moves_only_what_is_outside(bits: u64)
    ensures
        at_least(bits, 0) && at_least(0x3ff0_0000_0000_0000, bits) ==> clamped(bits) == bits,
        at_least(0, bits) && !at_least(bits, 0) ==> clamped(bits) == 0,
        at_least(bits, 0x3ff0_0000_0000_0000) ==> clamped(bits) == 0x3ff0_0000_0000_0000,
{
}

proof fn lemma_find_shifted(s: Seq<char>, pattern: Seq<char>, at: int, i: int)
    requires
        0 <= at <= s.len(),
        0 <= i,
    ensures
        find_from(s, pattern, at + i) == match find_from(s.skip(at), pattern, i) {
            Some(k) => Some(at + k),
            None => None,
        },
    decreases s.len() + 1 - at - i,
{
    let t = s.skip(at);
    if at + i + pattern.len() <= s.len() {
        assert(t.subrange(i, i + pattern.len()) =~= s.subrange(at + i, at + i + pattern.len()));
        if !crate::text::occurs_at(t, pattern, i) {
            lemma_find_shifted(s, pattern, at, i + 1);
        }
    }
}

proof fn lemma_uncommented_shifted(s: Seq<char>, at: int, from: int)
    requires
        0 <= at <= s.len(),
        0 <= from <= s.len() - at,
    ensures
        uncommented_from(s, at + from) == uncommented_from(s.skip(at), from),
    decreases s.len() - at - from,
{
    let t = s.skip(at);
    lemma_comment_bounds(t, from);
    lemma_comment_bounds(s, at + from);
    lemma_find_shifted(s, "<!--"@, at, from);
    assert(s.skip(at + from) =~= t.skip(from));
    if let Some(start) = find_from(t, "<!--"@, from) {
        lemma_find_shifted(s, "-->"@, at, start + 4);
        if let Some(end) = find_from(t, "-->"@, start + 4) {
            lemma_uncommented_shifted(s, at, end + 3);
            assert(t.subrange(from, start) =~= s.subrange(at + from, at + start));
        }
    }
}

/// A comment that is closed is cut out, marks and all, and the text before and
/// behind it stays; the text behind it is read in the same way.
pub proof fn a_closed_comment_is_cut_out(front: Seq<char>, inside: Seq<char>, back: Seq<char>)
    requires
        ({
            let text = front + "<!--"@ + inside + "-->"@ + back;
            &&& forall|j: int|
                0 <= j < front.len() ==> !#[trigger] crate::text::occurs_at(text, "<!--"@, j)
            &&& forall|j: int|
                0 <= j - front.len() - 4 < inside.len() ==> !#[trigger] crate::text::occurs_at(
                    text,
                    "-->"@,
                    j,
                )
        }),
    ensures
        uncommented(front + "<!--"@ + inside + "-->"@ + back) == front + uncommented(back),
{
    reveal_strlit("<!--");
    reveal_strlit("-->");
    let text = front + "<!--"@ + inside + "-->"@ + back;
    let start = front.len() as int;
    let end = start + 4 + inside.len();
    lemma_find_from(text, "<!--"@, 0);
    assert(text.subrange(start, start + 4) =~= "<!--"@);
    assert(crate::text::occurs_at(text, "<!--"@, start));
    assert(find_from(text, "<!--"@, 0) == Some(start));
    lemma_find_from(text, "-->"@, start + 4);
    assert(text.subrange(end, end + 3) =~= "-->"@);
    assert(crate::text::occurs_at(text, "-->"@, end));
    assert(find_from(text, "-->"@, start + 4) == Some(end));
    lemma_uncommented_shifted(text, end + 3, 0);
    assert(text.skip(end + 3) =~= back);
    assert(text.subrange(0, start) =~= front);
}

/// A line without its carriage return.
pub open spec fn bare(line: Seq<char>) -> Seq<char> {
    if line.len() > 0 && line.last() == '\r' {
        line.drop_last()
    } else {
        line
    }
}

/// A text is scaffolding exactly where each of its lines is.
pub proof fn scaffolding_is_told_line_by_line(line: Seq<char>, rest: Seq<char>)
    requires
        forall|i: int| 0 <= i < line.len() ==> #[trigger] line[i] != '\n',
    ensures
        scaffold_lines(line + seq!['\n'] + rest) == (scaffold_line(bare(line)) && scaffold_lines(
            rest,
        )),
        scaffold_lines(line) == (line.len() == 0 || scaffold_line(line)),
{
    crate::text::a_line_feed_ends_a_line(line, rest);
    let whole = lines(line + seq!['\n'] + rest);
    let others = lines(rest);
    assert(whole[0] == bare(line));
    if scaffold_lines(line + seq!['\n'] + rest) {
        assert(scaffold_line(whole[0]));
        assert forall|k: int| 0 <= k < others.len() implies scaffold_line(#[trigger] others[k]) by {
            assert(whole[k + 1] == others[k]);
        }
    }
    if scaffold_line(bare(line)) && scaffold_lines(rest) {
        assert forall|k: int| 0 <= k < whole.len() implies scaffold_line(#[trigger] whole[k]) by {
            if k > 0 {
                assert(whole[k] == others[k - 1]);
            }
        }
    }
    if line.len() > 0 {
        assert(lines(line)[0] == line);
    }
}

/// So many number signs.
pub open spec fn signs(n: int) -> Seq<char> {
    Seq::new(n as nat, |i: int| '#')
}

/// A line is scaffolding where nothing stands on it, or where what stands on it
/// begins with one to six number signs that are followed by a space, a tab or
/// the end. Everything else is content.
pub proof fn a_line_is_scaffolding_or_content(indent: Seq<char>, t: Seq<char>)
    requires
        forall|i: int| 0 <= i < indent.len() ==> crate::text::white_space(#[trigger] indent[i]),
        t.len() > 0 ==> !crate::text::white_space(t[0]),
    ensures
        scaffold_line(indent + t) <==> (t.len() == 0 || exists|n: int|
            {
                &&& 1 <= n <= 6 && n <= t.len()
                &&& #[trigger] t.take(n) == signs(n)
                &&& n == t.len() || t[n] == ' ' || t[n] == '\t'
            }),
        forall|n: int|
            heading(indent + t, n) <==> {
                &&& 1 <= n <= 6 && n <= t.len()
                &&& #[trigger] t.take(n) == signs(n)
                &&& n == t.len() || t[n] == ' ' || t[n] == '\t'
            },
{
    let line = indent + t;
    crate::text::lemma_trim_start_is(line, indent.len() as int);
    assert(line.skip(indent.len() as int) =~= t);
    assert(trim(line).len() == 0 <==> t.len() == 0) by {
        if t.len() == 0 {
            assert(crate::text::trim_end(t).len() == 0);
        } else {
            crate::text::trimming_takes_white_space_only(line);
            if trim(line).len() == 0 {
                let (lead, trail) = choose|lead: Seq<char>, trail: Seq<char>|
                    {
                        &&& line == #[trigger] (lead + trim(line) + trail)
                        &&& forall|i: int|
                            0 <= i < lead.len() ==> crate::text::white_space(#[trigger] lead[i])
                        &&& forall|i: int|
                            0 <= i < trail.len() ==> crate::text::white_space(#[trigger] trail[i])
                    };
                let at = indent.len() as int;
                assert(line[at] == t[0]);
                if at < lead.len() {
                    assert(crate::text::white_space(lead[at]));
                } else {
                    assert(crate::text::white_space(trail[at - lead.len()]));
                }
            }
        }
    }
    assert forall|n: int| heading(line, n) <==> {
        &&& 1 <= n <= 6 && n <= t.len()
        &&& #[trigger] t.take(n) == signs(n)
        &&& n == t.len() || t[n] == ' ' || t[n] == '\t'
    } by {
        if heading(line, n) {
            assert(t.take(n) =~= signs(n));
        }
        if 1 <= n <= 6 && n <= t.len() && t.take(n) == signs(n) {
            assert forall|i: int| 0 <= i < n implies t[i] == '#' by {
                assert(signs(n)[i] == '#');
            }
        }
    }
    if exists|n: int| heading(line, n) {
        let n = choose|n: int| heading(line, n);
        assert(t.take(n) == signs(n));
    }
    if exists|n: int|
        {
            &&& 1 <= n <= 6 && n <= t.len()
            &&& #[trigger] t.take(n) == signs(n)
            &&& n == t.len() || t[n] == ' ' || t[n] == '\t'
        } {
        let n = choose|n: int|
            {
                &&& 1 <= n <= 6 && n <= t.len()
                &&& #[trigger] t.take(n) == signs(n)
                &&& n == t.len() || t[n] == ' ' || t[n] == '\t'
            };
        assert(heading(line, n));
    }
}

/// A heading has one level: the number of signs at its start.
pub proof fn a_heading_has_one_level(line: Seq<char>, m: int, n: int)
    requires
        heading(line, m),
        heading(line, n),
    ensures
        m == n,
{
    let t = trim_start(line);
    if m < n {
        assert(t[m] == '#');
    }
    if n < m {
        assert(t[n] == '#');
    }
}

proof fn lemma_line_is_listed(front: Seq<char>, line: Seq<char>, back: Seq<char>) -> (k: int)
    requires
        front.len() == 0 || front.last() == '\n',
        back.len() == 0 || back[0] == '\n',
        line.len() > 0,
        line.last() != '\r',
        forall|i: int| 0 <= i < line.len() ==> #[trigger] line[i] != '\n',
    ensures
        0 <= k < lines(front + line + back).len(),
        lines(front + line + back)[k] == line,
    decreases front.len(),
{
    let whole = front + line + back;
    if front.len() == 0 {
        if back.len() == 0 {
            assert(whole =~= line);
            crate::text::a_line_feed_ends_a_line(line, back);
        } else {
            let rest = back.skip(1);
            assert(whole =~= line + seq!['\n'] + rest);
            crate::text::a_line_feed_ends_a_line(line, rest);
        }
        0
    } else {
        let e = crate::text::line_end(front);
        crate::text::lemma_line_end(front);
        assert(e < front.len()) by {
            if e == front.len() {
                assert(front[front.len() - 1] != '\n');
            }
        }
        let first = front.take(e);
        let others = front.skip(e + 1);
        assert(others.len() == 0 || others.last() == front.last());
        assert(whole =~= first + seq!['\n'] + (others + line + back));
        let k = lemma_line_is_listed(others, line, back);
        crate::text::a_line_feed_ends_a_line(first, others + line + back);
        k + 1
    }
}

/// A chunk of a session is kept as soon as one line of it has content, wherever
/// the line stands: something other than a heading is written on it, and no
/// comment is opened in the text.
pub proof fn a_line_of_content_is_kept(
    front: Seq<char>,
    indent: Seq<char>,
    written: Seq<char>,
    back: Seq<char>,
    source: Seq<char>,
)
    requires
        front.len() == 0 || front.last() == '\n',
        back.len() == 0 || back[0] == '\n',
        forall|i: int| 0 <= i < indent.len() ==> crate::text::white_space(#[trigger] indent[i])
            && indent[i] != '\n',
        forall|i: int| 0 <= i < written.len() ==> #[trigger] written[i] != '\n',
        written.len() > 0,
        !crate::text::white_space(written[0]),
        written[0] != '#',
        written.last() != '\r',
        !contains(front + (indent + written) + back, "<!--"@),
        source != "global"@,
        source != "workspace"@,
    ensures
        !content_free(front + (indent + written) + back, source),
{
    let line = indent + written;
    let text = front + line + back;
    assert forall|i: int| 0 <= i < line.len() implies #[trigger] line[i] != '\n' by {
        if i < indent.len() {
            assert(line[i] == indent[i]);
        } else {
            assert(line[i] == written[i - indent.len()]);
        }
    }
    an_unclosed_comment_keeps_the_text(text);
    let k = lemma_line_is_listed(front, line, back);
    a_line_is_scaffolding_or_content(indent, written);
    assert(!scaffold_line(line)) by {
        if exists|n: int|
            {
                &&& 1 <= n <= 6 && n <= written.len()
                &&& #[trigger] written.take(n) == signs(n)
                &&& n == written.len() || written[n] == ' ' || written[n] == '\t'
            } {
            let n = choose|n: int|
                {
                    &&& 1 <= n <= 6 && n <= written.len()
                    &&& #[trigger] written.take(n) == signs(n)
                    &&& n == written.len() || written[n] == ' ' || written[n] == '\t'
                };
            assert(signs(n)[0] == '#' && written.take(n)[0] == written[0]);
        }
    }
    assert(!scaffold_line(lines(text)[k]));
}

/// Two sources are curated: the global and the workspace memory. In them, and
/// only in them, a chunk counts as empty also where each line that is no
/// scaffolding holds a phrase of the stub that the file was created from.
pub proof fn only_two_sources_are_curated(text: Seq<char>, source: Seq<char>)
    ensures
        evergreen(source) <==> (source == "global"@ || source == "workspace"@),
        content_free(text, source) <==> {
            ||| scaffold_lines(uncommented(text))
            ||| (source == "global"@ || source == "workspace"@) && forall|k: int|
                0 <= k < lines(uncommented(text)).len() ==> {
                    let line = #[trigger] lines(uncommented(text))[k];
                    ||| scaffold_line(line)
                    ||| contains(line, "This file is automatically managed by Axon's memory system"@)
                    ||| contains(line, "You can also edit it manually"@)
                    ||| contains(line, "Add any cross-project preferences here"@)
                    ||| contains(line, "Auto-populated by dream consolidation"@)
                }
        },
{
    let all = lines(uncommented(text));
    if scaffold_template(text) {
        assert forall|k: int| 0 <= k < all.len() implies {
            let line = #[trigger] all[k];
            scaffold_line(line) || template_phrase(line)
        } by {}
    }
}

/// An id is listed where one of the ids is the same, letter for letter.
pub proof fn an_id_is_listed_where_it_stands(ids: Seq<String>, k: int, id: Seq<char>)
    requires
        0 <= k < ids.len(),
    ensures
        listed(ids, ids[k]@),
        listed(ids, id) ==> exists|i: int| 0 <= i < ids.len() && (#[trigger] ids[i])@ == id,
{
    assert(ids[k]@ == ids[k]@);
}

/// Ranks stand in the order of the list, each once.
pub proof fn ranks_rise(list: Seq<Listed>, id: Seq<char>)
    requires
        list.len() <= usize::MAX,
    ensures
        forall|i: int, j: int|
            0 <= i < j < ranks(list, id).len() ==> #[trigger] ranks(list, id)[i] < #[trigger] ranks(
                list,
                id,
            )[j],
        forall|i: int|
            0 <= i < ranks(list, id).len() ==> 1 <= #[trigger] ranks(list, id)[i] <= list.len(),
    decreases list.len(),
{
    lemma_ranks_bounded(list, id);
    if list.len() > 0 {
        let fewer = ranks(list.drop_last(), id);
        let all = ranks(list, id);
        ranks_rise(list.drop_last(), id);
        assert forall|i: int, j: int| 0 <= i < j < all.len() implies #[trigger] all[i]
            < #[trigger] all[j] by {
            assert(fewer[i] == all[i]);
            if j < fewer.len() {
                assert(fewer[j] == all[j]);
            }
        }
    }
}

/// Merged chunks stand in the order in which they are first seen: those of the
/// keyword list in its order, and then those that only the vector list has, in
/// its order. An entry that is not on, or whose chunk was seen, adds none.
pub proof fn merged_chunks_stand_in_order(
    text: Seq<Listed>,
    vector: Seq<Listed>,
    next: Listed,
)
    ensures
        merged_ids(Seq::empty(), Seq::empty()).len() == 0,
        merged_ids(text, vector.push(next)) == if next.on && !merged_ids(text, vector).contains(
            next.id@,
        ) {
            merged_ids(text, vector).push(next.id@)
        } else {
            merged_ids(text, vector)
        },
        merged_ids(text.push(next), Seq::empty()) == if next.on && !merged_ids(
            text,
            Seq::empty(),
        ).contains(next.id@) {
            merged_ids(text, Seq::empty()).push(next.id@)
        } else {
            merged_ids(text, Seq::empty())
        },
{
    assert(vector.push(next).drop_last() =~= vector);
    assert(text.push(next).drop_last() =~= text);
}

/// A chunk is as old as the time since it was made, and never of a negative
/// age. One without a date counts from the epoch.
pub proof fn age_is_time_passed(created_at: int, passed: nat)
    ensures
        created_at >= 0 ==> age(created_at, created_at + passed) == passed,
        created_at >= 0 ==> age(created_at, created_at - passed) == 0,
        created_at < 0 ==> age(created_at, passed as int) == passed,
        created_at < 0 ==> age(created_at, -(passed as int)) == 0,
{
}

/// Cutting keeps the first items in their order: all of them where they are no
/// more than the limit, and else exactly as many as the limit says.
pub proof fn cutting_keeps_the_first<T>(items: Seq<T>, max_results: nat, i: int)
    ensures
        items.len() <= max_results ==> first_of(items, max_results) == items,
        items.len() > max_results ==> first_of(items, max_results).len() == max_results,
        0 <= i < first_of(items, max_results).len() ==> first_of(items, max_results)[i] == items[i],
{
}

/// A search that returns fewer results than it may has left nothing out: every
/// candidate with content whose score reaches the threshold is among them, as
/// the index holds it. A result is never ahead of one with a higher score.
pub proof fn nothing_is_left_out_below_the_limit(
    results: Seq<SearchResult>,
    ranked: Seq<Ranked>,
    candidates: Seq<Candidate>,
    min_score: u64,
    max_results: nat,
    k: int,
)
    requires
        ranking(ranked, candidates, min_score),
        results.len() == first_of(ranked, max_results).len(),
        forall|i: int|
            0 <= i < results.len() ==> (#[trigger] results[i]).shows(
                candidates[ranked[i].index as int],
                ranked[i],
            ),
        results.len() < max_results,
        0 <= k < candidates.len(),
        !content_free(candidates[k].text@, candidates[k].source@),
        at_least(clamped(candidates[k].raw), min_score),
    ensures
        exists|i: int|
            0 <= i < results.len() && {
                let result = #[trigger] results[i];
                &&& result.chunk_id@ == candidates[k].chunk_id@
                &&& result.path@ == candidates[k].path@
                &&& result.start_line == candidates[k].start_line
                &&& result.end_line == candidates[k].end_line
                &&& result.snippet@ == candidates[k].text@
                &&& result.source@ == candidates[k].source@
                &&& result.created_at == candidates[k].created_at
                &&& result.score == clamped(candidates[k].raw)
            },
{
    content_and_score_decide(ranked, candidates, min_score, k);
    let i = choose|i: int| 0 <= i < ranked.len() && (#[trigger] ranked[i]).index == k;
    assert(results[i].shows(candidates[ranked[i].index as int], ranked[i]));
    assert(ranked[i].raw == candidates[k].raw);
}

// ---- What the functions give ----

/// The answers on single chunks: which sources are curated, and which texts hold
/// nothing.
pub proof fn a_chunk_is_judged_by_text_and_source(
    text: &str,
    source: &str,
    curated: bool,
    empty: bool,
    template: bool,
    free: bool,
)
    requires
        call_ensures(is_evergreen_source, (source,), curated),
        call_ensures(is_structurally_empty, (text,), empty),
        call_ensures(is_scaffold_template, (text,), template),
        call_ensures(is_content_free, (text, source), free),
    ensures
        curated <==> (source@ == "global"@ || source@ == "workspace"@),
        free <==> (empty || (curated && template)),
        empty <==> forall|k: int|
            0 <= k < lines(uncommented(text@)).len() ==> scaffold_line(
                #[trigger] lines(uncommented(text@))[k],
            ),
        template <==> forall|k: int|
            0 <= k < lines(uncommented(text@)).len() ==> {
                let line = #[trigger] lines(uncommented(text@))[k];
                ||| scaffold_line(line)
                ||| contains(line, "This file is automatically managed by Axon's memory system"@)
                ||| contains(line, "You can also edit it manually"@)
                ||| contains(line, "Add any cross-project preferences here"@)
                ||| contains(line, "Auto-populated by dream consolidation"@)
            },
{
    let all = lines(uncommented(text@));
    if scaffold_template(text@) {
        assert forall|k: int| 0 <= k < all.len() implies {
            let line = #[trigger] all[k];
            scaffold_line(line) || template_phrase(line)
        } by {}
    }
}

/// Without its comments or with them, a text is scaffolding where all its lines
/// are; the level of a heading is the number of signs at its start.
pub proof fn headings_are_told_from_content(
    text: &str,
    scaffold: bool,
    indent: Seq<char>,
    t: Seq<char>,
    line: &[char],
    level: Option<usize>,
)
    requires
        call_ensures(lines_are_scaffolding, (text,), scaffold),
        call_ensures(header_level, (line,), level),
        line@ == indent + t,
        forall|i: int| 0 <= i < indent.len() ==> crate::text::white_space(#[trigger] indent[i]),
        t.len() > 0 ==> !crate::text::white_space(t[0]),
    ensures
        scaffold <==> forall|k: int|
            0 <= k < lines(text@).len() ==> scaffold_line(#[trigger] lines(text@)[k]),
        level matches Some(n) ==> {
            &&& 1 <= n <= 6 && n <= t.len()
            &&& t.take(n as int) == signs(n as int)
            &&& n == t.len() || t[n as int] == ' ' || t[n as int] == '\t'
        },
        level is None ==> forall|n: int|
            1 <= n <= 6 && n <= t.len() && #[trigger] t.take(n) == signs(n)
                ==> n < t.len() && t[n] != ' ' && t[n] != '\t',
{
    a_line_is_scaffolding_or_content(indent, t);
    match level {
        Some(n) => {
            assert(heading(line@, n as int));
            let _ = t.take(n as int);
        },
        None => {
            assert forall|n: int|
                1 <= n <= 6 && n <= t.len() && #[trigger] t.take(n) == signs(n) implies n < t.len()
                && t[n] != ' ' && t[n] != '\t' by {
                assert(!heading(line@, n));
            }
        },
    }
}

/// Ranking returns each candidate that has content and whose shown score reaches
/// the threshold, once, and no other; a higher score comes first, and of equal
/// ones the earlier candidate.
pub proof fn ranking_returns_what_qualifies(
    candidates: &[Candidate],
    min_score: u64,
    r: Vec<Ranked>,
    k: int,
    i: int,
    j: int,
)
    requires
        call_ensures(rank, (candidates, min_score), r),
        0 <= k < candidates@.len(),
    ensures
        (exists|n: int| 0 <= n < r@.len() && (#[trigger] r@[n]).index == k) <==> {
            &&& !content_free(candidates@[k].text@, candidates@[k].source@)
            &&& at_least(clamped(candidates@[k].raw), min_score)
        },
        0 <= i < r@.len() ==> {
            &&& r@[i].index < candidates@.len()
            &&& r@[i].raw == candidates@[r@[i].index as int].raw
            &&& r@[i].display == clamped(r@[i].raw)
        },
        0 <= i < j < r@.len() ==> {
            &&& r@[i].index != r@[j].index
            &&& at_least(r@[i].raw, r@[j].raw)
            &&& at_least(r@[j].raw, r@[i].raw) ==> r@[i].index < r@[j].index
        },
{
    content_and_score_decide(r@, candidates@, min_score, k);
    if 0 <= i < j < r@.len() {
        lemma_ranked_has_key(r@, candidates@, min_score, i);
        lemma_ranked_has_key(r@, candidates@, min_score, j);
        assert(before(r@[i], r@[j]));
        if r@[i].index == r@[j].index {
            assert(r@[i].raw == r@[j].raw);
        }
    }
}

/// A search returns at most as many results as it may, each for a candidate that
/// qualifies and as the index holds it; where it returns fewer, none that
/// qualifies is missing.
pub proof fn a_search_returns_what_qualifies(
    candidates: &[Candidate],
    min_score: u64,
    max_results: usize,
    r: Vec<SearchResult>,
    k: int,
    i: int,
)
    requires
        call_ensures(search_results, (candidates, min_score, max_results), r),
        0 <= k < candidates@.len(),
    ensures
        r@.len() <= max_results,
        0 <= i < r@.len() ==> exists|c: int|
            0 <= c < candidates@.len() && {
                let candidate = #[trigger] candidates@[c];
                &&& !content_free(candidate.text@, candidate.source@)
                &&& at_least(clamped(candidate.raw), min_score)
                &&& r@[i].score == clamped(candidate.raw)
                &&& r@[i].chunk_id@ == candidate.chunk_id@
                &&& r@[i].path@ == candidate.path@
                &&& r@[i].start_line == candidate.start_line
                &&& r@[i].end_line == candidate.end_line
                &&& r@[i].snippet@ == candidate.text@
                &&& r@[i].source@ == candidate.source@
                &&& r@[i].created_at == candidate.created_at
            },
        r@.len() < max_results && !content_free(candidates@[k].text@, candidates@[k].source@)
            && at_least(clamped(candidates@[k].raw), min_score) ==> exists|n: int|
            0 <= n < r@.len() && (#[trigger] r@[n]).chunk_id@ == candidates@[k].chunk_id@
                && r@[n].snippet@ == candidates@[k].text@ && r@[n].score == clamped(
                candidates@[k].raw,
            ),
{
    let ranked = choose|ranked: Seq<Ranked>|
        {
            &&& #[trigger] ranking(ranked, candidates@, min_score)
            &&& r@.len() == first_of(ranked, max_results as nat).len()
            &&& forall|i: int|
                0 <= i < r@.len() ==> (#[trigger] r@[i]).shows(
                    candidates@[ranked[i].index as int],
                    ranked[i],
                )
        };
    if 0 <= i < r@.len() {
        let c = ranked[i].index as int;
        assert(r@[i].shows(candidates@[c], ranked[i]));
        assert(selected(candidates@[c], min_score));
        content_and_score_decide(ranked, candidates@, min_score, c);
    }
    if r@.len() < max_results && !content_free(candidates@[k].text@, candidates@[k].source@)
        && at_least(clamped(candidates@[k].raw), min_score) {
        nothing_is_left_out_below_the_limit(
            r@,
            ranked,
            candidates@,
            min_score,
            max_results as nat,
            k,
        );
    }
}

/// Results stand for what was ranked, one for each and in that order.
pub proof fn results_stand_in_order(
    candidates: &[Candidate],
    ranked: &[Ranked],
    r: Vec<SearchResult>,
    i: int,
)
    requires
        call_ensures(results_of, (candidates, ranked), r),
        forall|k: int| 0 <= k < ranked@.len() ==> (#[trigger] ranked@[k]).index < candidates@.len(),
        0 <= i < ranked@.len(),
    ensures
        r@.len() == ranked@.len(),
        r@[i].chunk_id@ == candidates@[ranked@[i].index as int].chunk_id@,
        r@[i].path@ == candidates@[ranked@[i].index as int].path@,
        r@[i].start_line == candidates@[ranked@[i].index as int].start_line,
        r@[i].end_line == candidates@[ranked@[i].index as int].end_line,
        r@[i].snippet@ == candidates@[ranked@[i].index as int].text@,
        r@[i].source@ == candidates@[ranked@[i].index as int].source@,
        r@[i].created_at == candidates@[ranked@[i].index as int].created_at,
        r@[i].score == ranked@[i].display,
{
    assert(r@[i].shows(candidates@[ranked@[i].index as int], ranked@[i]));
}

/// Merging gives each chunk that contributes to either list once, with the
/// places at which it does, counted from one.
pub proof fn merging_gives_every_place(
    text: &[Listed],
    vector: &[Listed],
    r: Vec<Merged>,
    place: int,
    k: int,
)
    requires
        call_ensures(merge_lists, (text, vector), r),
        text@.len() <= usize::MAX,
        vector@.len() <= usize::MAX,
        0 <= k < r@.len(),
    ensures
        1 <= place <= text@.len() ==> (r@[k].text@.contains(place as usize) <==> (text@[place
            - 1].on && text@[place - 1].id@ == r@[k].id@)),
        1 <= place <= vector@.len() ==> (r@[k].vector@.contains(place as usize) <==> (vector@[place
            - 1].on && vector@[place - 1].id@ == r@[k].id@)),
        r@[k].text@.len() > 0 || r@[k].vector@.len() > 0,
        forall|j: int| 0 <= j < r@.len() && j != k ==> (#[trigger] r@[j]).id@ != r@[k].id@,
{
    let ids = merged_ids(text@, vector@);
    if 1 <= place <= text@.len() {
        a_rank_is_a_place(text@, r@[k].id@, place);
    }
    if 1 <= place <= vector@.len() {
        a_rank_is_a_place(vector@, r@[k].id@, place);
    }
    merging_keeps_every_contributor_once(text@, vector@, r@[k].id@);
    assert(ids[k] == r@[k].id@);
    assert(ids.contains(r@[k].id@));
    assert forall|j: int| 0 <= j < r@.len() && j != k implies (#[trigger] r@[j]).id@
        != r@[k].id@ by {
        assert(ids[j] == r@[j].id@);
        assert(ids[j] != ids[k]);
    }
}

/// An entry that is on and contributes to a list is among the merged chunks.
pub proof fn merging_loses_no_chunk(text: &[Listed], vector: &[Listed], r: Vec<Merged>, place: int)
    requires
        call_ensures(merge_lists, (text, vector), r),
        text@.len() <= usize::MAX,
        vector@.len() <= usize::MAX,
    ensures
        1 <= place <= text@.len() && text@[place - 1].on ==> exists|k: int|
            0 <= k < r@.len() && (#[trigger] r@[k]).id@ == text@[place - 1].id@,
        1 <= place <= vector@.len() && vector@[place - 1].on ==> exists|k: int|
            0 <= k < r@.len() && (#[trigger] r@[k]).id@ == vector@[place - 1].id@,
{
    let ids = merged_ids(text@, vector@);
    if 1 <= place <= text@.len() && text@[place - 1].on {
        let id = text@[place - 1].id@;
        a_rank_is_a_place(text@, id, place);
        merging_keeps_every_contributor_once(text@, vector@, id);
        let k = choose|k: int| 0 <= k < ids.len() && ids[k] == id;
        assert(r@[k].id@ == id);
    }
    if 1 <= place <= vector@.len() && vector@[place - 1].on {
        let id = vector@[place - 1].id@;
        a_rank_is_a_place(vector@, id, place);
        merging_keeps_every_contributor_once(text@, vector@, id);
        let k = choose|k: int| 0 <= k < ids.len() && ids[k] == id;
        assert(r@[k].id@ == id);
    }
}

/// A supplemental hit is appended exactly where none of the hits has its id.
pub proof fn only_what_is_missing_is_appended(
    found: &[String],
    evergreen: &[String],
    r: Vec<usize>,
    k: int,
)
    requires
        call_ensures(supplement, (found, evergreen), r),
        evergreen@.len() <= usize::MAX,
        0 <= k < evergreen@.len(),
    ensures
        r@.contains(k as usize) <==> forall|i: int|
            0 <= i < found@.len() ==> (#[trigger] found@[i])@ != evergreen@[k]@,
        forall|i: int, j: int| 0 <= i < j < r@.len() ==> #[trigger] r@[i] < #[trigger] r@[j],
        forall|i: int| 0 <= i < r@.len() ==> (#[trigger] r@[i]) < evergreen@.len(),
{
    supplement_adds_what_is_missing(found@, evergreen@);
    let id = evergreen@[k]@;
    if r@.contains(k as usize) {
        let i = choose|i: int| 0 <= i < r@.len() && r@[i] == k as usize;
        assert(missing_from(found@, evergreen@)[i] == r@[i]);
        assert(!listed(found@, id));
    }
    assert forall|i: int| 0 <= i < r@.len() implies (#[trigger] r@[i]) < evergreen@.len() by {
        assert(missing_from(found@, evergreen@)[i] == r@[i]);
    }
    assert forall|i: int, j: int| 0 <= i < j < r@.len() implies #[trigger] r@[i]
        < #[trigger] r@[j] by {
        assert(missing_from(found@, evergreen@)[i] < missing_from(found@, evergreen@)[j]);
    }
}

/// A chunk of a session decays by the seconds since it was made; one that is
/// curated, or where decay is off, does not.
pub proof fn only_sessions_decay(
    source: &str,
    created_at: i64,
    now: i64,
    decays: bool,
    r: Option<i64>,
)
    requires
        call_ensures(decay_age, (source, created_at, now, decays), r),
        now - (if created_at < 0 {
            0
        } else {
            created_at as int
        }) >= i64::MIN,
    ensures
        r is None <==> (!decays || source@ == "global"@ || source@ == "workspace"@),
        r matches Some(seconds) ==> {
            &&& seconds >= 0
            &&& 0 <= created_at <= now ==> seconds == now - created_at
            &&& created_at > now && created_at >= 0 ==> seconds == 0
            &&& created_at < 0 && now >= 0 ==> seconds == now
            &&& created_at < 0 && now < 0 ==> seconds == 0
        },
{
}

/// The small decisions of a search: three times as many candidates as results,
/// the weight of the source once, the keyword score never lost, and scores shown
/// between zero and one.
pub proof fn small_decisions(
    max_results: usize,
    limit: usize,
    fusion: Fusion,
    applies: bool,
    text_positive: bool,
    vector_positive: bool,
    base: BaseScore,
    bits: u64,
    shown: u64,
)
    requires
        max_results * 3 <= usize::MAX,
        call_ensures(candidate_limit, (max_results,), limit),
        call_ensures(weight_applies, (fusion,), applies),
        call_ensures(base_score, (text_positive, vector_positive), base),
        call_ensures(display_score, (bits,), shown),
    ensures
        limit == max_results * 3,
        applies <==> fusion is Weighted,
        base is Combined <==> text_positive && vector_positive,
        base is TextOnly <==> text_positive && !vector_positive,
        at_least(bits, 0) && at_least(0x3ff0_0000_0000_0000, bits) ==> shown == bits,
        at_least(0, bits) && !at_least(bits, 0) ==> shown == 0,
        at_least(bits, 0x3ff0_0000_0000_0000) ==> shown == 0x3ff0_0000_0000_0000,
{
    clamping_moves_only_what_is_outside(bits);
}

/// Cutting a list keeps its first items.
pub proof fn a_cut_list_keeps_its_start<T>(ranked: Vec<T>, max_results: usize, r: Vec<T>, i: int)
    requires
        call_ensures(limited::<T>, (ranked, max_results), r),
    ensures
        ranked@.len() <= max_results ==> r@ == ranked@,
        ranked@.len() > max_results ==> r@.len() == max_results,
        0 <= i < r@.len() ==> r@[i] == ranked@[i],
{
}

} // verus!
