//! Symbol captures from tree-sitter queries.
//!
//! All symbol extraction walks the same capture patterns (`name.definition.*`,
//! `name.reference.*`, `alias.original`, `alias.name`) over a parsed tree. Here
//! captures are classified, collected in match order, and aliases are paired
//! within their match.

use std::iter::once;

use tree_sitter::{Node, QueryCursor, StreamingIterator};
use vstd::prelude::*;

use crate::text::{begins_with, chars_of, maybe, same, slice_of, starts_with, string_of, views};

verus! {

/// The query type of `tree_sitter`.
#[verifier::external_type_specification]
#[verifier::external_body]
pub struct ExQuery(tree_sitter::Query);

/// The syntax node type of `tree_sitter`.
#[verifier::external_type_specification]
#[verifier::external_body]
pub struct ExNode<'tree>(tree_sitter::Node<'tree>);

/// Capture-name prefix for symbol definitions.
pub const DEFINITION_PREFIX: &'static str = "name.definition.";

/// Capture-name prefix for symbol references.
pub const REFERENCE_PREFIX: &'static str = "name.reference.";

/// Capture name for the original symbol of an import alias.
pub const ALIAS_ORIGINAL: &'static str = "alias.original";

/// Capture name for the imported-as name of an import alias.
pub const ALIAS_NAME: &'static str = "alias.name";

/// Classification of a query capture.
///
/// Matching is by prefix, so a capture named `name.definition.method.static`
/// is a definition with symbol `method.static`.
#[derive(Debug, Clone, Copy, PartialEq, Eq, Structural)]
pub enum CaptureKind {
    /// A `name.definition.<sym>` capture.
    Definition,
    /// A `name.reference.<sym>` capture.
    Reference,
    /// An `alias.original` capture.
    AliasOriginal,
    /// An `alias.name` capture.
    AliasName,
    /// Any other capture, ignored by symbol extraction.
    Other,
}

/// The kind of the captures with this name.
pub open spec fn kind_named(name: Seq<char>) -> CaptureKind {
    if starts_with(name, DEFINITION_PREFIX@) {
        CaptureKind::Definition
    } else if starts_with(name, REFERENCE_PREFIX@) {
        CaptureKind::Reference
    } else if name == ALIAS_ORIGINAL@ {
        CaptureKind::AliasOriginal
    } else if name == ALIAS_NAME@ {
        CaptureKind::AliasName
    } else {
        CaptureKind::Other
    }
}

impl CaptureKind {
    /// Classify a capture name.
    pub fn from_capture_name(name: &str) -> (r: Self)
        ensures
            r == kind_named(name@),
    {
        let chars = chars_of(name);
        if begins_with(&chars, &chars_of(DEFINITION_PREFIX)) {
            CaptureKind::Definition
        } else if begins_with(&chars, &chars_of(REFERENCE_PREFIX)) {
            CaptureKind::Reference
        } else if same(name, ALIAS_ORIGINAL) {
            CaptureKind::AliasOriginal
        } else if same(name, ALIAS_NAME) {
            CaptureKind::AliasName
        } else {
            CaptureKind::Other
        }
    }
}

/// A position in a source text. Rows and columns count from zero.
#[derive(Debug, Clone, Copy, PartialEq, Eq, Structural)]
pub struct Position {
    pub byte: usize,
    pub row: usize,
    pub column: usize,
}

/// A line and byte range in a source text.
#[derive(Debug, Clone, Copy, PartialEq, Eq, Structural)]
pub struct Range {
    pub start: Position,
    pub end: Position,
}

/// A captured node of a match: the index of the capture, and where the node
/// stands.
#[derive(Debug, Clone, Copy, PartialEq, Eq, Structural)]
pub struct Found {
    pub index: u32,
    pub range: Range,
}

/// A symbol definition or reference occurrence captured from a query.
#[derive(Debug, PartialEq, Eq)]
pub struct SymbolCapture {
    /// Byte range of the symbol in the source text.
    pub byte_range: std::ops::Range<usize>,
    /// Line/byte range of the symbol in the source text.
    pub range: Range,
    /// The query capture index this symbol came from.
    pub capture_index: u32,
}

/// A matched pair of `alias.original` and `alias.name` captures.
#[derive(Debug, PartialEq, Eq)]
pub struct AliasCapturePair {
    /// Byte range of the original symbol name in the source text.
    pub original: std::ops::Range<usize>,
    /// Byte range of the imported-as name in the source text.
    pub name: std::ops::Range<usize>,
}

/// Canonical result of walking symbol captures over a query.
///
/// Only positions are recorded; converting byte ranges to text is left to the
/// caller so it can pick its UTF-8 policy.
#[derive(Debug, PartialEq, Eq)]
pub struct QueryCaptures {
    /// `name.definition.*` captures, in query match order.
    pub defs: Vec<SymbolCapture>,
    /// `name.reference.*` captures, in query match order.
    pub refs: Vec<SymbolCapture>,
    /// Matched `alias.original`/`alias.name` capture pairs, in match order.
    pub aliases: Vec<AliasCapturePair>,
}

// ---- The query ----

/// The capture names of a `tree_sitter::Query`, by capture index.
pub uninterp spec fn capture_names(query: tree_sitter::Query) -> Seq<Seq<char>>;

/// The matches of a query over a node and the source text: for each match, its
/// captures in order.
pub uninterp spec fn query_matches(
    query: tree_sitter::Query,
    node: tree_sitter::Node<'_>,
    src: Seq<u8>,
) -> Seq<Seq<Found>>;

/// The views of some lists.
pub open spec fn lists(found: Seq<Vec<Found>>) -> Seq<Seq<Found>> {
    found.map_values(|v: Vec<Found>| v@)
}

/// `Query::capture_names` gives the names of the captures, by index.
#[verifier::external_body]
fn names_of(query: &tree_sitter::Query) -> (r: Vec<String>)
    ensures
        views(r@) == capture_names(*query),
{
    query.capture_names().iter().map(|name| name.to_string()).collect()
}

/// The bytes of a source in a range, or none where the source ends before the
/// range does.
fn text_at(src: &[u8], range: std::ops::Range<usize>) -> (r: &[u8])
    ensures
        r@ == if range.start <= range.end <= src@.len() {
            src@.subrange(range.start as int, range.end as int)
        } else {
            Seq::empty()
        },
{
    if range.start <= range.end && range.end <= src.len() {
        vstd::slice::slice_subrange(src, range.start, range.end)
    } else {
        let none = vstd::slice::slice_subrange(src, 0, 0);
        assert(none@ =~= Seq::empty());
        none
    }
}

/// `QueryCursor::matches` walks the matches of a query over a node. Where the
/// query compares the text of a node, it asks for the bytes of that node, which
/// are taken from the source as far as it reaches.
#[verifier::external_body]
fn matches_of(query: &tree_sitter::Query, node: tree_sitter::Node<'_>, src: &[u8]) -> (r: Vec<
    Vec<Found>,
>)
    ensures
        lists(r@) == query_matches(*query, node, src@),
{
    let mut out = Vec::new();
    let mut cursor = QueryCursor::new();
    let text = |n: Node<'_>| once(text_at(src, n.byte_range()));
    let mut matches = cursor.matches(query, node, text);
    while let Some(found) = matches.next() {
        out.push(found.captures().iter().map(|c| {
            let r = c.node.range();
            let (s, e) = (r.start_point, r.end_point);
            let start = Position { byte: r.start_byte, row: s.row, column: s.column };
            let end = Position { byte: r.end_byte, row: e.row, column: e.column };
            Found { index: c.index, range: Range { start, end } }
        }).collect());
    }
    out
}

// ---- Symbol kinds ----

/// The symbol kind that a capture name gives, if it is one of a definition or
/// a reference.
pub open spec fn symbol_kind(name: Seq<char>) -> Option<Seq<char>> {
    if starts_with(name, DEFINITION_PREFIX@) {
        Some(name.skip(DEFINITION_PREFIX@.len() as int))
    } else if starts_with(name, REFERENCE_PREFIX@) {
        Some(name.skip(REFERENCE_PREFIX@.len() as int))
    } else {
        None
    }
}

/// The symbol kind that a capture name gives, such as `function` for
/// `name.definition.function`. `None` for names that are not of symbol
/// definitions or references.
pub fn symbol_kind_named(name: &str) -> (r: Option<String>)
    ensures
        maybe(r) == symbol_kind(name@),
{
    let chars = chars_of(name);
    let definition = chars_of(DEFINITION_PREFIX);
    let reference = chars_of(REFERENCE_PREFIX);
    let n: usize = chars.len();
    if begins_with(&chars, &definition) {
        let kind = slice_of(&chars, definition.len(), n);
        assert(kind@ =~= name@.skip(definition@.len() as int));
        Some(string_of(&kind))
    } else if begins_with(&chars, &reference) {
        let kind = slice_of(&chars, reference.len(), n);
        assert(kind@ =~= name@.skip(reference@.len() as int));
        Some(string_of(&kind))
    } else {
        None
    }
}

/// The symbol kind of a definition or reference capture of a query. `None`
/// for captures that are not symbol definitions or references.
pub fn symbol_kind_of(query: &tree_sitter::Query, capture_index: u32) -> (r: Option<String>)
    requires
        capture_index < capture_names(*query).len(),
    ensures
        maybe(r) == symbol_kind(capture_names(*query)[capture_index as int]),
{
    let names = names_of(query);
    assert(views(names@).len() == names@.len());
    assert(views(names@)[capture_index as int] == names@[capture_index as int]@);
    symbol_kind_named(names[capture_index as usize].as_str())
}

/// The symbol kind of a capture of a query, or `None` where the query has no
/// capture with this index.
pub fn try_symbol_kind_of(query: &tree_sitter::Query, capture_index: u32) -> (r: Option<
    Option<String>,
>)
    ensures
        r is Some == (capture_index < capture_names(*query).len()),
        r matches Some(kind) ==> maybe(kind) == symbol_kind(
            capture_names(*query)[capture_index as int],
        ),
{
    let names = names_of(query);
    assert(views(names@).len() == names@.len());
    if (capture_index as usize) < names.len() {
        Some(symbol_kind_of(query, capture_index))
    } else {
        None
    }
}

// ---- Collecting ----

/// The kind of a capture, by its index. An index without a name is of no kind
/// that matters.
pub open spec fn kind_at(names: Seq<Seq<char>>, index: u32) -> CaptureKind {
    if index < names.len() {
        kind_named(names[index as int])
    } else {
        CaptureKind::Other
    }
}

/// The captures of one kind, in order.
pub open spec fn of_kind(found: Seq<Found>, names: Seq<Seq<char>>, kind: CaptureKind) -> Seq<Found>
    decreases found.len(),
{
    if found.len() == 0 {
        Seq::empty()
    } else {
        let before = of_kind(found.drop_last(), names, kind);
        if kind_at(names, found.last().index) == kind {
            before.push(found.last())
        } else {
            before
        }
    }
}

/// The captures of one kind in all matches, in match order.
pub open spec fn all_of_kind(
    matches: Seq<Seq<Found>>,
    names: Seq<Seq<char>>,
    kind: CaptureKind,
) -> Seq<Found>
    decreases matches.len(),
{
    if matches.len() == 0 {
        Seq::empty()
    } else {
        all_of_kind(matches.drop_last(), names, kind) + of_kind(matches.last(), names, kind)
    }
}

/// The bytes of a captured node.
pub open spec fn bytes_of(found: Found) -> std::ops::Range<usize> {
    std::ops::Range { start: found.range.start.byte, end: found.range.end.byte }
}

/// A captured node, as a symbol.
pub open spec fn symbol(found: Found) -> SymbolCapture {
    SymbolCapture { byte_range: bytes_of(found), range: found.range, capture_index: found.index }
}

/// The alias that a match gives: its last `alias.original` and its last
/// `alias.name`, where it has both.
pub open spec fn alias_of(found: Seq<Found>, names: Seq<Seq<char>>) -> Option<AliasCapturePair> {
    let originals = of_kind(found, names, CaptureKind::AliasOriginal);
    let aliases = of_kind(found, names, CaptureKind::AliasName);
    if originals.len() > 0 && aliases.len() > 0 {
        Some(
            AliasCapturePair {
                original: bytes_of(originals.last()),
                name: bytes_of(aliases.last()),
            },
        )
    } else {
        None
    }
}

/// The aliases of all matches, in match order.
pub open spec fn aliases_of(matches: Seq<Seq<Found>>, names: Seq<Seq<char>>) -> Seq<
    AliasCapturePair,
>
    decreases matches.len(),
{
    if matches.len() == 0 {
        Seq::empty()
    } else {
        let before = aliases_of(matches.drop_last(), names);
        match alias_of(matches.last(), names) {
            Some(pair) => before.push(pair),
            None => before,
        }
    }
}

impl QueryCaptures {
    /// These are the captures of `matches`.
    pub open spec fn collects(self, matches: Seq<Seq<Found>>, names: Seq<Seq<char>>) -> bool {
        &&& self.defs@ == all_of_kind(matches, names, CaptureKind::Definition).map_values(
            |f: Found| symbol(f),
        )
        &&& self.refs@ == all_of_kind(matches, names, CaptureKind::Reference).map_values(
            |f: Found| symbol(f),
        )
        &&& self.aliases@ == aliases_of(matches, names)
    }
}

fn kinds_of(names: &[String]) -> (r: Vec<CaptureKind>)
    ensures
        r@.len() == names@.len(),
        forall|i: int| 0 <= i < r@.len() ==> #[trigger] r@[i] == kind_named(names@[i]@),
{
    let mut out: Vec<CaptureKind> = Vec::new();
    let mut i: usize = 0;
    while i < names.len()
        invariant
            i <= names@.len(),
            out@.len() == i,
            forall|j: int| 0 <= j < i ==> #[trigger] out@[j] == kind_named(names@[j]@),
        decreases names@.len() - i,
    {
        out.push(CaptureKind::from_capture_name(names[i].as_str()));
        i += 1;
    }
    out
}

fn bytes(found: Found) -> (r: std::ops::Range<usize>)
    ensures
        r == bytes_of(found),
{
    std::ops::Range { start: found.range.start.byte, end: found.range.end.byte }
}

fn capture(found: Found) -> (r: SymbolCapture)
    ensures
        r == symbol(found),
{
    SymbolCapture { byte_range: bytes(found), range: found.range, capture_index: found.index }
}

/// `kinds` are the kinds of the captures with these names.
pub open spec fn classifies(kinds: Seq<CaptureKind>, names: Seq<Seq<char>>) -> bool {
    &&& kinds.len() == names.len()
    &&& forall|i: int| 0 <= i < names.len() ==> #[trigger] kinds[i] == kind_named(names[i])
}

/// The nodes, as symbols.
pub open spec fn symbols(found: Seq<Found>) -> Seq<SymbolCapture> {
    found.map_values(|f: Found| symbol(f))
}

fn collect_match(
    captures: &mut QueryCaptures,
    kinds: &[CaptureKind],
    found: &[Found],
    Ghost(names): Ghost<Seq<Seq<char>>>,
)
    requires
        classifies(kinds@, names),
    ensures
        final(captures).defs@ == old(captures).defs@ + symbols(
            of_kind(found@, names, CaptureKind::Definition),
        ),
        final(captures).refs@ == old(captures).refs@ + symbols(
            of_kind(found@, names, CaptureKind::Reference),
        ),
        final(captures).aliases@ == match alias_of(found@, names) {
            Some(pair) => old(captures).aliases@.push(pair),
            None => old(captures).aliases@,
        },
{
    let ghost defs = captures.defs@;
    let ghost refs = captures.refs@;
    let mut original: Option<Found> = None;
    let mut alias: Option<Found> = None;
    let mut i: usize = 0;
    assert(found@.take(0) =~= Seq::empty());
    assert(defs + symbols(Seq::empty()) =~= defs);
    assert(refs + symbols(Seq::empty()) =~= refs);
    while i < found.len()
        invariant
            i <= found@.len(),
            classifies(kinds@, names),
            captures.defs@ == defs + symbols(
                of_kind(found@.take(i as int), names, CaptureKind::Definition),
            ),
            captures.refs@ == refs + symbols(
                of_kind(found@.take(i as int), names, CaptureKind::Reference),
            ),
            captures.aliases@ == old(captures).aliases@,
            match original {
                Some(f) => {
                    let all = of_kind(found@.take(i as int), names, CaptureKind::AliasOriginal);
                    all.len() > 0 && all.last() == f
                },
                None => of_kind(found@.take(i as int), names, CaptureKind::AliasOriginal).len()
                    == 0,
            },
            match alias {
                Some(f) => {
                    let all = of_kind(found@.take(i as int), names, CaptureKind::AliasName);
                    all.len() > 0 && all.last() == f
                },
                None => of_kind(found@.take(i as int), names, CaptureKind::AliasName).len() == 0,
            },
        decreases found@.len() - i,
    {
        let f: Found = found[i];
        let ghost before = found@.take(i as int);
        let ghost after = found@.take(i + 1);
        let ghost old_defs = of_kind(before, names, CaptureKind::Definition);
        let ghost old_refs = of_kind(before, names, CaptureKind::Reference);
        proof {
            assert(after.drop_last() =~= before);
            assert(after.last() == f);
        }
        let kind = if (f.index as usize) < kinds.len() {
            kinds[f.index as usize]
        } else {
            CaptureKind::Other
        };
        assert(kind == kind_at(names, f.index));
        match kind {
            CaptureKind::Definition => {
                captures.defs.push(capture(f));
                assert(symbols(old_defs.push(f)) =~= symbols(old_defs).push(symbol(f)));
            },
            CaptureKind::Reference => {
                captures.refs.push(capture(f));
                assert(symbols(old_refs.push(f)) =~= symbols(old_refs).push(symbol(f)));
            },
            CaptureKind::AliasOriginal => {
                original = Some(f);
            },
            CaptureKind::AliasName => {
                alias = Some(f);
            },
            CaptureKind::Other => {},
        }
        i += 1;
        assert(captures.defs@ =~= defs + symbols(of_kind(after, names, CaptureKind::Definition)));
        assert(captures.refs@ =~= refs + symbols(of_kind(after, names, CaptureKind::Reference)));
    }
    assert(found@.take(i as int) =~= found@);
    if let (Some(original), Some(alias)) = (original, alias) {
        captures.aliases.push(AliasCapturePair { original: bytes(original), name: bytes(alias) });
    }
}

/// Collect the captures of some matches. Aliases are paired within their
/// match.
pub fn collect_captures(names: &[String], matches: &[Vec<Found>]) -> (r: QueryCaptures)
    ensures
        r.collects(lists(matches@), views(names@)),
{
    let kinds = kinds_of(names);
    let ghost names = views(names@);
    let ghost all = lists(matches@);
    assert(classifies(kinds@, names)) by {
        assert forall|i: int| 0 <= i < names.len() implies #[trigger] kinds@[i] == kind_named(
            names[i],
        ) by {}
    }
    let mut out = QueryCaptures { defs: Vec::new(), refs: Vec::new(), aliases: Vec::new() };
    let mut i: usize = 0;
    assert(all.take(0) =~= Seq::empty());
    assert(symbols(Seq::empty()) =~= Seq::empty());
    while i < matches.len()
        invariant
            i <= matches@.len(),
            classifies(kinds@, names),
            all == lists(matches@),
            out.defs@ == symbols(all_of_kind(all.take(i as int), names, CaptureKind::Definition)),
            out.refs@ == symbols(all_of_kind(all.take(i as int), names, CaptureKind::Reference)),
            out.aliases@ == aliases_of(all.take(i as int), names),
        decreases matches@.len() - i,
    {
        let ghost before = all.take(i as int);
        let ghost after = all.take(i + 1);
        proof {
            assert(after.drop_last() =~= before);
            assert(after.last() == matches@[i as int]@);
        }
        collect_match(&mut out, &kinds, &matches[i], Ghost(names));
        i += 1;
        assert(out.defs@ =~= symbols(all_of_kind(after, names, CaptureKind::Definition)));
        assert(out.refs@ =~= symbols(all_of_kind(after, names, CaptureKind::Reference)));
    }
    assert(all.take(i as int) =~= all);
    out
}

/// Walk the symbol captures of `query` over `root_node`. Where the source ends
/// before a node does, the node is taken to have no text.
pub fn extract_query_captures(
    query: &tree_sitter::Query,
    root_node: tree_sitter::Node<'_>,
    src: &[u8],
) -> (r: QueryCaptures)
    ensures
        r.collects(query_matches(*query, root_node, src@), capture_names(*query)),
{
    collect_captures(&names_of(query), &matches_of(query, root_node, src))
}

// ---- Laws ----

/// A capture has a symbol kind exactly where it is a definition or a
/// reference.
pub proof fn symbols_are_definitions_and_references(name: Seq<char>)
    ensures
        symbol_kind(name) is Some <==> (kind_named(name) == CaptureKind::Definition || kind_named(
            name,
        ) == CaptureKind::Reference),
{
}

/// Classification goes by prefix: whatever follows the prefix of a definition
/// or a reference is the symbol kind, dots and all.
pub proof fn a_prefix_decides(kind: Seq<char>)
    ensures
        kind_named(DEFINITION_PREFIX@ + kind) == CaptureKind::Definition,
        symbol_kind(DEFINITION_PREFIX@ + kind) == Some(kind),
        kind_named(REFERENCE_PREFIX@ + kind) == CaptureKind::Reference,
        symbol_kind(REFERENCE_PREFIX@ + kind) == Some(kind),
{
    let d = DEFINITION_PREFIX@;
    let f = REFERENCE_PREFIX@;
    assert((d + kind).take(d.len() as int) =~= d);
    assert((d + kind).skip(d.len() as int) =~= kind);
    assert((f + kind).take(f.len() as int) =~= f);
    assert((f + kind).skip(f.len() as int) =~= kind);
    reveal_strlit("name.definition.");
    reveal_strlit("name.reference.");
    assert((f + kind)[5] == 'r');
    if starts_with(f + kind, d) {
        assert((f + kind).take(d.len() as int)[5] == 'd');
    }
}

/// A query without captures, or without matches, yields nothing.
pub proof fn nothing_matched_is_nothing_captured(
    captures: QueryCaptures,
    matches: Seq<Seq<Found>>,
    names: Seq<Seq<char>>,
)
    requires
        captures.collects(matches, names),
        matches.len() == 0 || names.len() == 0,
    ensures
        captures.defs@.len() == 0,
        captures.refs@.len() == 0,
        captures.aliases@.len() == 0,
{
    lemma_nothing(matches, names);
}

proof fn lemma_nothing(matches: Seq<Seq<Found>>, names: Seq<Seq<char>>)
    requires
        matches.len() == 0 || names.len() == 0,
    ensures
        all_of_kind(matches, names, CaptureKind::Definition).len() == 0,
        all_of_kind(matches, names, CaptureKind::Reference).len() == 0,
        aliases_of(matches, names).len() == 0,
    decreases matches.len(),
{
    if matches.len() > 0 {
        lemma_nothing(matches.drop_last(), names);
        lemma_none_of_kind(matches.last(), names, CaptureKind::Definition);
        lemma_none_of_kind(matches.last(), names, CaptureKind::Reference);
        lemma_none_of_kind(matches.last(), names, CaptureKind::AliasName);
    }
}

proof fn lemma_none_of_kind(found: Seq<Found>, names: Seq<Seq<char>>, kind: CaptureKind)
    requires
        names.len() == 0,
        kind != CaptureKind::Other,
    ensures
        of_kind(found, names, kind).len() == 0,
    decreases found.len(),
{
    if found.len() > 0 {
        lemma_none_of_kind(found.drop_last(), names, kind);
    }
}

/// Aliases are paired within a match: each match gives at most one, and the
/// two halves of a pair come from the same match.
pub proof fn an_alias_pairs_within_its_match(
    matches: Seq<Seq<Found>>,
    names: Seq<Seq<char>>,
    i: int,
)
    requires
        0 <= i < aliases_of(matches, names).len(),
    ensures
        aliases_of(matches, names).len() <= matches.len(),
        exists|m: int|
            0 <= m < matches.len() && alias_of(#[trigger] matches[m], names) == Some(
                aliases_of(matches, names)[i],
            ),
    decreases matches.len(),
{
    let before = matches.drop_last();
    let pairs = aliases_of(before, names);
    if i < pairs.len() {
        an_alias_pairs_within_its_match(before, names, i);
        let m = choose|m: int|
            0 <= m < before.len() && alias_of(#[trigger] before[m], names) == Some(pairs[i]);
        assert(matches[m] == before[m]);
    } else {
        assert(alias_of(matches[matches.len() - 1], names) == Some(aliases_of(matches, names)[i]));
    }
    lemma_at_most_one_alias(matches, names);
}

proof fn lemma_at_most_one_alias(matches: Seq<Seq<Found>>, names: Seq<Seq<char>>)
    ensures
        aliases_of(matches, names).len() <= matches.len(),
    decreases matches.len(),
{
    if matches.len() > 0 {
        lemma_at_most_one_alias(matches.drop_last(), names);
    }
}

/// The name of a capture, where the query has one for it, begins like this.
pub open spec fn name_begins(names: Seq<Seq<char>>, found: Found, prefix: Seq<char>) -> bool {
    &&& found.index < names.len()
    &&& prefix.len() <= names[found.index as int].len()
    &&& forall|i: int|
        0 <= i < prefix.len() ==> names[found.index as int][i] == #[trigger] prefix[i]
}

/// The name of a capture, where the query has one for it, is this.
pub open spec fn name_is(names: Seq<Seq<char>>, found: Found, name: Seq<char>) -> bool {
    found.index < names.len() && names[found.index as int] == name
}

/// A symbol has the index of a capture and stands exactly where its node does.
pub open spec fn stands_where(symbol: SymbolCapture, found: Found) -> bool {
    &&& symbol.capture_index == found.index
    &&& symbol.byte_range.start == found.range.start.byte
    &&& symbol.byte_range.end == found.range.end.byte
    &&& symbol.range.start.byte == found.range.start.byte
    &&& symbol.range.start.row == found.range.start.row
    &&& symbol.range.start.column == found.range.start.column
    &&& symbol.range.end.byte == found.range.end.byte
    &&& symbol.range.end.row == found.range.end.row
    &&& symbol.range.end.column == found.range.end.column
}

/// Captures are told by their names: definitions and references by how the
/// name begins, the halves of an alias by the whole name. No name is of two
/// kinds.
pub proof fn a_name_tells_its_kind(name: Seq<char>)
    ensures
        kind_named(name) == CaptureKind::Definition <==> {
            &&& name.len() >= 16
            &&& name.take(16) == "name.definition."@
        },
        kind_named(name) == CaptureKind::Reference <==> {
            &&& name.len() >= 15
            &&& name.take(15) == "name.reference."@
        },
        kind_named(name) == CaptureKind::AliasOriginal <==> name == "alias.original"@,
        kind_named(name) == CaptureKind::AliasName <==> name == "alias.name"@,
        symbol_kind(name) == if name.len() >= 16 && name.take(16) == "name.definition."@ {
            Some(name.skip(16))
        } else if name.len() >= 15 && name.take(15) == "name.reference."@ {
            Some(name.skip(15))
        } else {
            None
        },
{
    reveal_strlit("name.definition.");
    reveal_strlit("name.reference.");
    reveal_strlit("alias.original");
    reveal_strlit("alias.name");
    if name.len() >= 16 && name.take(16) == "name.definition."@ {
        assert(name.take(16)[0] == name[0] && name.take(16)[5] == name[5]);
    }
    if name.len() >= 15 && name.take(15) == "name.reference."@ {
        assert(name.take(15)[0] == name[0] && name.take(15)[5] == name[5]);
    }
}

proof fn lemma_kind_at(names: Seq<Seq<char>>, f: Found)
    ensures
        kind_at(names, f.index) == CaptureKind::Definition <==> name_begins(
            names,
            f,
            "name.definition."@,
        ),
        kind_at(names, f.index) == CaptureKind::Reference <==> name_begins(
            names,
            f,
            "name.reference."@,
        ),
        kind_at(names, f.index) == CaptureKind::AliasOriginal <==> name_is(
            names,
            f,
            "alias.original"@,
        ),
        kind_at(names, f.index) == CaptureKind::AliasName <==> name_is(names, f, "alias.name"@),
{
    reveal_strlit("name.definition.");
    reveal_strlit("name.reference.");
    if f.index < names.len() {
        let name = names[f.index as int];
        a_name_tells_its_kind(name);
        crate::text::affixes_come_off(name, "name.definition."@);
        crate::text::affixes_come_off(name, "name.reference."@);
    }
}

proof fn lemma_of_kind_holds(found: Seq<Found>, names: Seq<Seq<char>>, kind: CaptureKind)
    ensures
        forall|i: int|
            0 <= i < of_kind(found, names, kind).len() ==> {
                let f = #[trigger] of_kind(found, names, kind)[i];
                kind_at(names, f.index) == kind && found.contains(f)
            },
        forall|c: int|
            0 <= c < found.len() && kind_at(names, (#[trigger] found[c]).index) == kind ==> of_kind(
                found,
                names,
                kind,
            ).contains(found[c]),
    decreases found.len(),
{
    if found.len() > 0 {
        let fewer = found.drop_last();
        let before = of_kind(fewer, names, kind);
        let all = of_kind(found, names, kind);
        lemma_of_kind_holds(fewer, names, kind);
        assert forall|i: int| 0 <= i < all.len() implies {
            let f = #[trigger] all[i];
            kind_at(names, f.index) == kind && found.contains(f)
        } by {
            if i < before.len() {
                assert(before[i] == all[i]);
                let c = choose|c: int| 0 <= c < fewer.len() && fewer[c] == before[i];
                assert(found[c] == all[i]);
            } else {
                assert(found[found.len() - 1] == all[i]);
            }
        }
        assert forall|c: int|
            0 <= c < found.len() && kind_at(names, (#[trigger] found[c]).index)
                == kind implies all.contains(found[c]) by {
            if c < fewer.len() {
                assert(fewer[c] == found[c]);
                let i = choose|i: int| 0 <= i < before.len() && before[i] == fewer[c];
                assert(all[i] == found[c]);
            } else {
                assert(all[all.len() - 1] == found[c]);
            }
        }
    }
}

proof fn lemma_all_of_kind_holds(
    matches: Seq<Seq<Found>>,
    names: Seq<Seq<char>>,
    kind: CaptureKind,
)
    ensures
        forall|i: int|
            0 <= i < all_of_kind(matches, names, kind).len() ==> {
                let f = #[trigger] all_of_kind(matches, names, kind)[i];
                kind_at(names, f.index) == kind && exists|m: int|
                    0 <= m < matches.len() && (#[trigger] matches[m]).contains(f)
            },
        forall|m: int, c: int|
            0 <= m < matches.len() && 0 <= c < matches[m].len() && kind_at(
                names,
                (#[trigger] matches[m][c]).index,
            ) == kind ==> all_of_kind(matches, names, kind).contains(matches[m][c]),
    decreases matches.len(),
{
    if matches.len() > 0 {
        let fewer = matches.drop_last();
        let before = all_of_kind(fewer, names, kind);
        let last = of_kind(matches.last(), names, kind);
        let all = all_of_kind(matches, names, kind);
        lemma_all_of_kind_holds(fewer, names, kind);
        lemma_of_kind_holds(matches.last(), names, kind);
        assert forall|i: int| 0 <= i < all.len() implies {
            let f = #[trigger] all[i];
            kind_at(names, f.index) == kind && exists|m: int|
                0 <= m < matches.len() && (#[trigger] matches[m]).contains(f)
        } by {
            if i < before.len() {
                assert(before[i] == all[i]);
                let m = choose|m: int|
                    0 <= m < fewer.len() && (#[trigger] fewer[m]).contains(before[i]);
                assert(matches[m].contains(all[i]));
            } else {
                assert(last[i - before.len()] == all[i]);
                assert(matches[matches.len() - 1].contains(all[i]));
            }
        }
        assert forall|m: int, c: int|
            0 <= m < matches.len() && 0 <= c < matches[m].len() && kind_at(
                names,
                (#[trigger] matches[m][c]).index,
            ) == kind implies all.contains(matches[m][c]) by {
            if m < fewer.len() {
                assert(fewer[m][c] == matches[m][c]);
                let i = choose|i: int| 0 <= i < before.len() && before[i] == matches[m][c];
                assert(all[i] == matches[m][c]);
            } else {
                let i = choose|i: int| 0 <= i < last.len() && last[i] == matches[m][c];
                assert(all[before.len() + i] == matches[m][c]);
            }
        }
    }
}

/// Each definition was captured under a definition's name and each reference
/// under a reference's, and each stands exactly where the node of its capture
/// does: bytes, rows and columns.
pub proof fn a_symbol_stands_where_its_node_does(
    captures: QueryCaptures,
    matches: Seq<Seq<Found>>,
    names: Seq<Seq<char>>,
    i: int,
)
    requires
        captures.collects(matches, names),
    ensures
        0 <= i < captures.defs@.len() ==> exists|m: int, c: int|
            {
                &&& 0 <= m < matches.len() && 0 <= c < matches[m].len()
                &&& name_begins(names, #[trigger] matches[m][c], "name.definition."@)
                &&& stands_where(captures.defs@[i], matches[m][c])
            },
        0 <= i < captures.refs@.len() ==> exists|m: int, c: int|
            {
                &&& 0 <= m < matches.len() && 0 <= c < matches[m].len()
                &&& name_begins(names, #[trigger] matches[m][c], "name.reference."@)
                &&& stands_where(captures.refs@[i], matches[m][c])
            },
{
    lemma_all_of_kind_holds(matches, names, CaptureKind::Definition);
    lemma_all_of_kind_holds(matches, names, CaptureKind::Reference);
    if 0 <= i < captures.defs@.len() {
        let f = all_of_kind(matches, names, CaptureKind::Definition)[i];
        let m = choose|m: int| 0 <= m < matches.len() && (#[trigger] matches[m]).contains(f);
        let c = choose|c: int| 0 <= c < matches[m].len() && matches[m][c] == f;
        lemma_kind_at(names, matches[m][c]);
        assert(stands_where(captures.defs@[i], matches[m][c]));
    }
    if 0 <= i < captures.refs@.len() {
        let f = all_of_kind(matches, names, CaptureKind::Reference)[i];
        let m = choose|m: int| 0 <= m < matches.len() && (#[trigger] matches[m]).contains(f);
        let c = choose|c: int| 0 <= c < matches[m].len() && matches[m][c] == f;
        lemma_kind_at(names, matches[m][c]);
        assert(stands_where(captures.refs@[i], matches[m][c]));
    }
}

/// No symbol is lost: each capture of a match that has a definition's name is
/// among the definitions, and each with a reference's among the references.
pub proof fn every_symbol_is_collected(
    captures: QueryCaptures,
    matches: Seq<Seq<Found>>,
    names: Seq<Seq<char>>,
    m: int,
    c: int,
)
    requires
        captures.collects(matches, names),
        0 <= m < matches.len(),
        0 <= c < matches[m].len(),
    ensures
        name_begins(names, matches[m][c], "name.definition."@) ==> exists|i: int|
            0 <= i < captures.defs@.len() && stands_where(
                #[trigger] captures.defs@[i],
                matches[m][c],
            ),
        name_begins(names, matches[m][c], "name.reference."@) ==> exists|i: int|
            0 <= i < captures.refs@.len() && stands_where(
                #[trigger] captures.refs@[i],
                matches[m][c],
            ),
{
    let f = matches[m][c];
    lemma_kind_at(names, f);
    lemma_all_of_kind_holds(matches, names, CaptureKind::Definition);
    lemma_all_of_kind_holds(matches, names, CaptureKind::Reference);
    if name_begins(names, f, "name.definition."@) {
        let all = all_of_kind(matches, names, CaptureKind::Definition);
        let i = choose|i: int| 0 <= i < all.len() && all[i] == f;
        assert(stands_where(captures.defs@[i], f));
    }
    if name_begins(names, f, "name.reference."@) {
        let all = all_of_kind(matches, names, CaptureKind::Reference);
        let i = choose|i: int| 0 <= i < all.len() && all[i] == f;
        assert(stands_where(captures.refs@[i], f));
    }
}

/// Matches are collected one after the other: what is collected from some
/// matches and then others is what is collected from the first, followed by
/// what is collected from the others.
pub proof fn matches_are_collected_in_order(
    both: QueryCaptures,
    first: QueryCaptures,
    others: QueryCaptures,
    a: Seq<Seq<Found>>,
    b: Seq<Seq<Found>>,
    names: Seq<Seq<char>>,
)
    requires
        both.collects(a + b, names),
        first.collects(a, names),
        others.collects(b, names),
    ensures
        both.defs@ == first.defs@ + others.defs@,
        both.refs@ == first.refs@ + others.refs@,
        both.aliases@ == first.aliases@ + others.aliases@,
{
    lemma_all_of_kind_joins(a, b, names, CaptureKind::Definition);
    lemma_all_of_kind_joins(a, b, names, CaptureKind::Reference);
    lemma_aliases_join(a, b, names);
    assert(both.defs@ =~= first.defs@ + others.defs@);
    assert(both.refs@ =~= first.refs@ + others.refs@);
}

proof fn lemma_all_of_kind_joins(
    a: Seq<Seq<Found>>,
    b: Seq<Seq<Found>>,
    names: Seq<Seq<char>>,
    kind: CaptureKind,
)
    ensures
        all_of_kind(a + b, names, kind) == all_of_kind(a, names, kind) + all_of_kind(
            b,
            names,
            kind,
        ),
    decreases b.len(),
{
    if b.len() == 0 {
        assert(a + b =~= a);
        assert(all_of_kind(a, names, kind) + all_of_kind(b, names, kind) =~= all_of_kind(
            a,
            names,
            kind,
        ));
    } else {
        lemma_all_of_kind_joins(a, b.drop_last(), names, kind);
        assert((a + b).drop_last() =~= a + b.drop_last());
        assert((a + b).last() == b.last());
        assert(all_of_kind(a + b, names, kind) =~= all_of_kind(a, names, kind) + all_of_kind(
            b,
            names,
            kind,
        ));
    }
}

proof fn lemma_aliases_join(a: Seq<Seq<Found>>, b: Seq<Seq<Found>>, names: Seq<Seq<char>>)
    ensures
        aliases_of(a + b, names) == aliases_of(a, names) + aliases_of(b, names),
    decreases b.len(),
{
    if b.len() == 0 {
        assert(a + b =~= a);
        assert(aliases_of(a, names) + aliases_of(b, names) =~= aliases_of(a, names));
    } else {
        lemma_aliases_join(a, b.drop_last(), names);
        assert((a + b).drop_last() =~= a + b.drop_last());
        assert((a + b).last() == b.last());
        assert(aliases_of(a + b, names) =~= aliases_of(a, names) + aliases_of(b, names));
    }
}

/// Within a match, symbols are collected in the order of its captures, and each
/// capture gives one symbol at most: cutting a match in two cuts its symbols in
/// two, and a capture alone gives a definition, a reference or neither, as its
/// name says.
pub proof fn captures_are_collected_in_order(
    both: QueryCaptures,
    first: QueryCaptures,
    others: QueryCaptures,
    a: Seq<Found>,
    b: Seq<Found>,
    names: Seq<Seq<char>>,
)
    requires
        both.collects(seq![a + b], names),
        first.collects(seq![a], names),
        others.collects(seq![b], names),
    ensures
        both.defs@ == first.defs@ + others.defs@,
        both.refs@ == first.refs@ + others.refs@,
        a.len() == 0 ==> first.defs@.len() == 0 && first.refs@.len() == 0,
        a.len() == 1 ==> {
            &&& first.defs@.len() == if name_begins(names, a[0], "name.definition."@) {
                1int
            } else {
                0
            }
            &&& first.refs@.len() == if name_begins(names, a[0], "name.reference."@) {
                1int
            } else {
                0
            }
        },
{
    lemma_one_match(a + b, names, CaptureKind::Definition);
    lemma_one_match(a + b, names, CaptureKind::Reference);
    lemma_one_match(a, names, CaptureKind::Definition);
    lemma_one_match(a, names, CaptureKind::Reference);
    lemma_one_match(b, names, CaptureKind::Definition);
    lemma_one_match(b, names, CaptureKind::Reference);
    lemma_of_kind_joins(a, b, names, CaptureKind::Definition);
    lemma_of_kind_joins(a, b, names, CaptureKind::Reference);
    assert(both.defs@ =~= first.defs@ + others.defs@);
    assert(both.refs@ =~= first.refs@ + others.refs@);
    if a.len() == 1 {
        lemma_kind_at(names, a[0]);
        assert(a.drop_last().len() == 0);
        assert(of_kind(a.drop_last(), names, CaptureKind::Definition).len() == 0);
        assert(of_kind(a.drop_last(), names, CaptureKind::Reference).len() == 0);
    }
}

proof fn lemma_one_match(found: Seq<Found>, names: Seq<Seq<char>>, kind: CaptureKind)
    ensures
        all_of_kind(seq![found], names, kind) == of_kind(found, names, kind),
{
    assert(seq![found].drop_last().len() == 0);
    assert(all_of_kind(seq![found].drop_last(), names, kind).len() == 0);
    assert(all_of_kind(seq![found], names, kind) =~= of_kind(found, names, kind));
}

proof fn lemma_of_kind_joins(
    a: Seq<Found>,
    b: Seq<Found>,
    names: Seq<Seq<char>>,
    kind: CaptureKind,
)
    ensures
        of_kind(a + b, names, kind) == of_kind(a, names, kind) + of_kind(b, names, kind),
    decreases b.len(),
{
    if b.len() == 0 {
        assert(a + b =~= a);
        assert(of_kind(a, names, kind) + of_kind(b, names, kind) =~= of_kind(a, names, kind));
    } else {
        lemma_of_kind_joins(a, b.drop_last(), names, kind);
        assert((a + b).drop_last() =~= a + b.drop_last());
        assert((a + b).last() == b.last());
        assert(of_kind(a + b, names, kind) =~= of_kind(a, names, kind) + of_kind(b, names, kind));
    }
}

/// A match gives an alias exactly where it holds both halves, and the pair has
/// the bytes of the last of each.
pub proof fn an_alias_has_the_bytes_of_its_halves(
    captures: QueryCaptures,
    found: Seq<Found>,
    names: Seq<Seq<char>>,
    original: int,
    alias: int,
)
    requires
        captures.collects(seq![found], names),
        -1 <= original < found.len(),
        -1 <= alias < found.len(),
        original >= 0 ==> name_is(names, found[original], "alias.original"@),
        alias >= 0 ==> name_is(names, found[alias], "alias.name"@),
        forall|c: int|
            original < c < found.len() ==> !name_is(names, #[trigger] found[c], "alias.original"@),
        forall|c: int|
            alias < c < found.len() ==> !name_is(names, #[trigger] found[c], "alias.name"@),
    ensures
        original >= 0 && alias >= 0 ==> {
            &&& captures.aliases@.len() == 1
            &&& captures.aliases@[0].original.start == found[original].range.start.byte
            &&& captures.aliases@[0].original.end == found[original].range.end.byte
            &&& captures.aliases@[0].name.start == found[alias].range.start.byte
            &&& captures.aliases@[0].name.end == found[alias].range.end.byte
        },
        original < 0 || alias < 0 ==> captures.aliases@.len() == 0,
{
    assert(seq![found].drop_last().len() == 0);
    assert(aliases_of(seq![found].drop_last(), names).len() == 0);
    assert forall|c: int| original < c < found.len() implies kind_at(
        names,
        (#[trigger] found[c]).index,
    ) != CaptureKind::AliasOriginal by {
        lemma_kind_at(names, found[c]);
    }
    assert forall|c: int| alias < c < found.len() implies kind_at(
        names,
        (#[trigger] found[c]).index,
    ) != CaptureKind::AliasName by {
        lemma_kind_at(names, found[c]);
    }
    if original >= 0 {
        lemma_kind_at(names, found[original]);
    }
    if alias >= 0 {
        lemma_kind_at(names, found[alias]);
    }
    lemma_last_of_kind(found, names, CaptureKind::AliasOriginal, original);
    lemma_last_of_kind(found, names, CaptureKind::AliasName, alias);
}

proof fn lemma_last_of_kind(
    found: Seq<Found>,
    names: Seq<Seq<char>>,
    kind: CaptureKind,
    last: int,
)
    requires
        -1 <= last < found.len(),
        last >= 0 ==> kind_at(names, found[last].index) == kind,
        forall|c: int|
            last < c < found.len() ==> kind_at(names, (#[trigger] found[c]).index) != kind,
    ensures
        last >= 0 ==> {
            &&& of_kind(found, names, kind).len() > 0
            &&& of_kind(found, names, kind).last() == found[last]
        },
        last < 0 ==> of_kind(found, names, kind).len() == 0,
    decreases found.len(),
{
    if found.len() > 0 && last < found.len() - 1 {
        let fewer = found.drop_last();
        assert(kind_at(names, found[found.len() - 1].index) != kind);
        assert forall|c: int| last < c < fewer.len() implies kind_at(
            names,
            (#[trigger] fewer[c]).index,
        ) != kind by {
            assert(fewer[c] == found[c]);
        }
        lemma_last_of_kind(fewer, names, kind, last);
    }
}
/// The captures of the matches are described in their order.
pub proof fn lists_keep_their_order(found: Seq<Vec<Found>>, i: int)
    ensures
        lists(found).len() == found.len(),
        0 <= i < found.len() ==> lists(found)[i] == found[i]@,
{
}

// ---- What the functions give ----

/// A name is classified by how it begins, and gives its symbol kind.
pub proof fn a_name_is_classified(name: &str, kind: CaptureKind, symbol: Option<String>)
    requires
        call_ensures(CaptureKind::from_capture_name, (name,), kind),
        call_ensures(symbol_kind_named, (name,), symbol),
    ensures
        kind is Definition <==> name@.len() >= 16 && name@.take(16) == "name.definition."@,
        kind is Reference <==> name@.len() >= 15 && name@.take(15) == "name.reference."@,
        kind is AliasOriginal <==> name@ == "alias.original"@,
        kind is AliasName <==> name@ == "alias.name"@,
        kind is Definition ==> (symbol matches Some(text) && text@ == name@.skip(16)),
        kind is Reference ==> (symbol matches Some(text) && text@ == name@.skip(15)),
        !(kind is Definition) && !(kind is Reference) ==> symbol is None,
{
    a_name_tells_its_kind(name@);
}

/// The symbol kind of a capture is that of its name.
pub proof fn a_capture_has_the_kind_of_its_name(
    query: &tree_sitter::Query,
    index: u32,
    r: Option<Option<String>>,
)
    requires
        call_ensures(try_symbol_kind_of, (query, index), r),
    ensures
        r is Some <==> index < capture_names(*query).len(),
        r matches Some(kind) ==> maybe(kind) == symbol_kind(capture_names(*query)[index as int]),
{
}

/// Collecting some matches gives each definition and each reference where its
/// node stands, and loses none.
pub proof fn collecting_keeps_every_place(
    names: &[String],
    matches: &[Vec<Found>],
    r: QueryCaptures,
    i: int,
    m: int,
    c: int,
)
    requires
        call_ensures(collect_captures, (names, matches), r),
    ensures
        0 <= i < r.defs@.len() ==> exists|m: int, c: int|
            {
                &&& 0 <= m < lists(matches@).len() && 0 <= c < lists(matches@)[m].len()
                &&& name_begins(views(names@), #[trigger] lists(matches@)[m][c], "name.definition."@)
                &&& stands_where(r.defs@[i], lists(matches@)[m][c])
            },
        0 <= i < r.refs@.len() ==> exists|m: int, c: int|
            {
                &&& 0 <= m < lists(matches@).len() && 0 <= c < lists(matches@)[m].len()
                &&& name_begins(views(names@), #[trigger] lists(matches@)[m][c], "name.reference."@)
                &&& stands_where(r.refs@[i], lists(matches@)[m][c])
            },
        0 <= m < matches@.len() && 0 <= c < matches@[m]@.len() ==> {
            &&& name_begins(views(names@), matches@[m]@[c], "name.definition."@) ==> exists|k: int|
                0 <= k < r.defs@.len() && stands_where(#[trigger] r.defs@[k], matches@[m]@[c])
            &&& name_begins(views(names@), matches@[m]@[c], "name.reference."@) ==> exists|k: int|
                0 <= k < r.refs@.len() && stands_where(#[trigger] r.refs@[k], matches@[m]@[c])
        },
{
    a_symbol_stands_where_its_node_does(r, lists(matches@), views(names@), i);
    if 0 <= m < matches@.len() && 0 <= c < matches@[m]@.len() {
        assert(lists(matches@)[m] == matches@[m]@);
        every_symbol_is_collected(r, lists(matches@), views(names@), m, c);
    }
}

/// Walking a query over a node collects its matches: each definition and each
/// reference where its node stands, and none is lost.
pub proof fn walking_a_query_keeps_every_place(
    query: &tree_sitter::Query,
    root_node: tree_sitter::Node<'_>,
    src: &[u8],
    r: QueryCaptures,
    i: int,
    m: int,
    c: int,
)
    requires
        call_ensures(extract_query_captures, (query, root_node, src), r),
    ensures
        ({
            let matches = query_matches(*query, root_node, src@);
            let names = capture_names(*query);
            &&& 0 <= i < r.defs@.len() ==> exists|m: int, c: int|
                {
                    &&& 0 <= m < matches.len() && 0 <= c < matches[m].len()
                    &&& name_begins(names, #[trigger] matches[m][c], "name.definition."@)
                    &&& stands_where(r.defs@[i], matches[m][c])
                }
            &&& 0 <= i < r.refs@.len() ==> exists|m: int, c: int|
                {
                    &&& 0 <= m < matches.len() && 0 <= c < matches[m].len()
                    &&& name_begins(names, #[trigger] matches[m][c], "name.reference."@)
                    &&& stands_where(r.refs@[i], matches[m][c])
                }
            &&& 0 <= m < matches.len() && 0 <= c < matches[m].len() ==> {
                &&& name_begins(names, matches[m][c], "name.definition."@) ==> exists|k: int|
                    0 <= k < r.defs@.len() && stands_where(#[trigger] r.defs@[k], matches[m][c])
                &&& name_begins(names, matches[m][c], "name.reference."@) ==> exists|k: int|
                    0 <= k < r.refs@.len() && stands_where(#[trigger] r.refs@[k], matches[m][c])
            }
        }),
{
    let matches = query_matches(*query, root_node, src@);
    let names = capture_names(*query);
    a_symbol_stands_where_its_node_does(r, matches, names, i);
    if 0 <= m < matches.len() && 0 <= c < matches[m].len() {
        every_symbol_is_collected(r, matches, names, m, c);
    }
}

} // verus!
