use axon::symbols::{
    collect_captures, extract_query_captures, symbol_kind_named, symbol_kind_of,
    try_symbol_kind_of, CaptureKind, Found, Position, Range,
};

const QUERY: &str = "
(function_item name: (identifier) @name.definition.function)
(type_identifier) @name.reference.type
(use_as_clause
  path: (scoped_identifier name: (identifier) @alias.original)
  alias: (identifier) @alias.name)
((identifier) @other (#eq? @other \"unmatched\"))
";

fn language() -> tree_sitter::Language {
    tree_sitter_rust::LANGUAGE.into()
}

fn parse_rust(src: &str) -> (tree_sitter::Tree, tree_sitter::Query) {
    let query = tree_sitter::Query::new(&language(), QUERY).expect("rust query should compile");
    let mut parser = tree_sitter::Parser::new();
    parser.set_language(&language()).expect("set rust language");
    let tree = parser.parse(src, None).expect("parse rust source");
    (tree, query)
}

#[test]
fn captures_definitions_with_symbol_kind() {
    let source = "fn greet(name: String) -> String {\n    name.into()\n}\n";
    let bytes = source.as_bytes().to_vec();
    let (tree, query) = parse_rust(source);

    let captures = extract_query_captures(&query, tree.root_node(), &bytes);

    let greet = captures
        .defs
        .iter()
        .find(|d| &bytes[d.byte_range.clone()] == b"greet")
        .expect("greet definition should be captured");
    assert_eq!(
        symbol_kind_of(&query, greet.capture_index).as_deref(),
        Some("function")
    );
    assert_eq!(greet.range.start, Position { byte: 3, row: 0, column: 3 });
    assert_eq!(greet.range.end, Position { byte: 8, row: 0, column: 8 });
}

#[test]
fn captures_references() {
    let source = "fn greet(name: String) -> String {\n    name.into()\n}\n";
    let bytes = source.as_bytes().to_vec();
    let (tree, query) = parse_rust(source);

    let captures = extract_query_captures(&query, tree.root_node(), &bytes);

    let ref_names: Vec<&[u8]> = captures
        .refs
        .iter()
        .map(|r| &bytes[r.byte_range.clone()])
        .collect();
    assert!(ref_names.iter().any(|n| n == b"String"));
}

#[test]
fn pairs_alias_captures_per_match() {
    let source = "use std::fmt::Write as Writer;\n";
    let bytes = source.as_bytes().to_vec();
    let (tree, query) = parse_rust(source);

    let captures = extract_query_captures(&query, tree.root_node(), &bytes);

    assert_eq!(captures.aliases.len(), 1);
    assert_eq!(&bytes[captures.aliases[0].original.clone()], b"Write");
    assert_eq!(&bytes[captures.aliases[0].name.clone()], b"Writer");
}

#[test]
fn empty_query_yields_no_captures() {
    let query = tree_sitter::Query::new(&language(), "").expect("empty query should compile");
    let mut parser = tree_sitter::Parser::new();
    parser.set_language(&language()).unwrap();
    let source = "fn main() {}\n";
    let tree = parser.parse(source, None).unwrap();

    let captures = extract_query_captures(&query, tree.root_node(), source.as_bytes());

    assert!(captures.defs.is_empty());
    assert!(captures.refs.is_empty());
    assert!(captures.aliases.is_empty());
}

#[test]
fn captures_keep_the_order_of_the_matches() {
    let source = "fn a() {}\nfn b(x: T, y: U) {}\nuse p::q as r;\nuse s::t as u;\n";
    let bytes = source.as_bytes();
    let (tree, query) = parse_rust(source);
    let captures = extract_query_captures(&query, tree.root_node(), bytes);
    let text = |range: &std::ops::Range<usize>| -> String { source[range.clone()].to_string() };
    let defs: Vec<String> = captures.defs.iter().map(|d| text(&d.byte_range)).collect();
    let refs: Vec<String> = captures.refs.iter().map(|r| text(&r.byte_range)).collect();
    assert_eq!(defs, vec!["a", "b"]);
    assert_eq!(refs, vec!["T", "U"]);
    let pairs: Vec<(String, String)> =
        captures.aliases.iter().map(|a| (text(&a.original), text(&a.name))).collect();
    assert_eq!(
        pairs,
        vec![("q".to_string(), "r".to_string()), ("t".to_string(), "u".to_string())]
    );
}

#[test]
fn a_node_beyond_the_source_has_no_text() {
    let source = "fn unmatched() {}\nfn other() {}\n";
    let text = "((identifier) @name.reference.x (#eq? @name.reference.x \"unmatched\"))
        ((identifier) @name.definition.x (#eq? @name.definition.x \"\"))";
    let query = tree_sitter::Query::new(&language(), text).unwrap();
    let (tree, _) = parse_rust(source);
    let whole = extract_query_captures(&query, tree.root_node(), source.as_bytes());
    assert_eq!((whole.refs.len(), whole.defs.len()), (1, 0));
    let short = extract_query_captures(&query, tree.root_node(), &source.as_bytes()[..20]);
    assert_eq!((short.refs.len(), short.defs.len()), (1, 1));
    assert_eq!(short.defs[0].byte_range, 21..26);
}

#[test]
fn an_index_without_a_capture_has_no_kind() {
    let (_, query) = parse_rust("");
    assert_eq!(try_symbol_kind_of(&query, 0), Some(Some("function".to_string())));
    assert_eq!(try_symbol_kind_of(&query, 2), Some(None));
    assert_eq!(try_symbol_kind_of(&query, 99), None);
}

#[test]
fn capture_names_are_classified_by_prefix() {
    let kind = CaptureKind::from_capture_name;
    assert_eq!(kind("name.definition.method.static"), CaptureKind::Definition);
    assert_eq!(kind("name.definition."), CaptureKind::Definition);
    assert_eq!(kind("name.definition"), CaptureKind::Other);
    assert_eq!(kind("name.reference.call"), CaptureKind::Reference);
    assert_eq!(kind("alias.original"), CaptureKind::AliasOriginal);
    assert_eq!(kind("alias.name"), CaptureKind::AliasName);
    assert_eq!(kind("alias.name.more"), CaptureKind::Other);
    assert_eq!(kind(""), CaptureKind::Other);
    assert_eq!(symbol_kind_named("name.definition.method.static").as_deref(), Some("method.static"));
    assert_eq!(symbol_kind_named("name.reference.call").as_deref(), Some("call"));
    assert_eq!(symbol_kind_named("alias.name"), None);
}

fn found(index: u32, start: usize, end: usize) -> Found {
    let at = |byte| Position { byte, row: 0, column: byte };
    Found { index, range: Range { start: at(start), end: at(end) } }
}

#[test]
fn the_last_halves_of_a_match_make_its_alias() {
    let names: Vec<String> =
        ["alias.original", "alias.name", "x"].iter().map(|n| n.to_string()).collect();
    let matches = vec![
        vec![found(0, 0, 1), found(0, 2, 3), found(1, 4, 5), found(1, 6, 7), found(2, 8, 9)],
        vec![found(0, 10, 11)],
        vec![found(1, 12, 13)],
        vec![found(7, 14, 15)],
    ];
    let captures = collect_captures(&names, &matches);
    assert_eq!(captures.aliases.len(), 1);
    assert_eq!(captures.aliases[0].original, 2..3);
    assert_eq!(captures.aliases[0].name, 6..7);
    assert!(captures.defs.is_empty() && captures.refs.is_empty());
}
