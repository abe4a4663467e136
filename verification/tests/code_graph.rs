use axon::code_graph::{
    conclude, contains_word, fallback_result, fallback_symbol, is_ident_byte, missing_target, plan, render,
    render_unresolved, resolve_target, scan_text, target_symbol, unsupported, CodeGraphBackend,
    LiteralScan, Lookup, LspOperation, LspToolInput, ScanResult, Step, SymbolLocation, Target,
    FALLBACK_FILE_LIMIT, FALLBACK_LINES_PER_FILE, FALLBACK_REPORT_FILES, MACRO_CAVEAT,
};


#[test]
fn contains_word_respects_identifier_boundaries() {
    assert!(contains_word("let x = take_reasoning();", "take_reasoning"));
    assert!(contains_word("take_reasoning", "take_reasoning"));
    // A prefix must not match a longer identifier.
    assert!(!contains_word(
        "pub reasoning_content: Option<String>",
        "reasoning"
    ));
    assert!(!contains_word(
        "fn take_reasoning_inner()",
        "take_reasoning"
    ));
    assert!(contains_word("delta.take_reasoning()", "take_reasoning"));
}

#[test]
fn contains_word_handles_repeats_without_looping() {
    assert!(contains_word("a.b(); x_b_y; b", "b"));
    assert!(!contains_word("abc abc abc", "b"));
}

/// A *non-empty* reference list is also incomplete, because macro bodies
/// are unindexed. Warning only on the empty case would treat "5 references"
/// as a census when every test using the symbol may be missing.
#[test]
fn non_empty_reference_list_is_labelled_a_lower_bound() {
    let locs = vec![
        SymbolLocation::new("src/a.rs", 12),
        SymbolLocation::new("src/b.rs", 40),
    ];
    let msg = render("take_reasoning", "References", &locs) + MACRO_CAVEAT;
    assert!(msg.contains("src/a.rs:12"), "got: {msg}");
    assert!(msg.contains("lower bound"), "got: {msg}");
    assert!(msg.contains("macro invocations"), "got: {msg}");

    // Definitions are exact and must NOT carry the caveat -- a definition
    // is not hidden by being referenced inside a macro.
    let defs = render("take_reasoning", "Definitions", &locs);
    assert!(!defs.contains("lower bound"), "got: {defs}");
}

/// An empty reference result must never read as "nothing uses this".
#[test]
fn unresolved_message_refuses_to_assert_a_negative() {
    let msg = render_unresolved("take_reasoning", &ScanResult::default());
    assert!(msg.contains("does NOT mean"), "got: {msg}");
    assert!(msg.contains("no information"), "got: {msg}");

    let scan = ScanResult {
        files: vec![("src/a.rs".into(), vec![190])],
        total_hits: 1,
        total_files: 1,
        walk_truncated: false,
    };
    let msg = render_unresolved("take_reasoning", &scan);
    assert!(msg.contains("src/a.rs"), "got: {msg}");
    assert!(msg.contains("190"), "got: {msg}");
    assert!(
        msg.contains("textual matches, not resolved references"),
        "got: {msg}"
    );
}

/// Every file must survive, and the true totals must be stated.
#[test]
fn every_file_survives_and_totals_are_never_understated() {
    let files: Vec<(String, Vec<usize>)> = (0..12)
        .map(|i| (format!("src/f{i}.rs"), (1..=8).collect::<Vec<usize>>()))
        .collect();
    let scan = ScanResult {
        total_hits: files.iter().map(|(_, l)| l.len()).sum(),
        total_files: files.len(),
        files,
        walk_truncated: false,
    };
    let msg = render_unresolved("reasoning_content", &scan);
    for i in 0..12 {
        assert!(
            msg.contains(&format!("src/f{i}.rs")),
            "lost file {i}: {msg}"
        );
    }
    assert!(
        msg.contains("96 occurrence(s) across 12 file(s)"),
        "got: {msg}"
    );
    assert!(!msg.contains("further file(s) not listed"), "got: {msg}");
}

/// Elision is allowed; silent elision is not.
#[test]
fn elision_states_its_own_size() {
    // More lines in one file than are shown.
    let scan = ScanResult {
        files: vec![("src/a.rs".into(), (1..=30).collect())],
        total_hits: 30,
        total_files: 1,
        walk_truncated: false,
    };
    let msg = render_unresolved("x", &scan);
    assert!(msg.contains("src/a.rs (30)"), "got: {msg}");
    assert!(
        msg.contains(&format!(", +{} more", 30 - FALLBACK_LINES_PER_FILE)),
        "got: {msg}"
    );

    // More files than are listed: the count of the remainder is stated.
    let scan = ScanResult {
        files: vec![("src/a.rs".into(), vec![1])],
        total_hits: 70,
        total_files: 70,
        walk_truncated: true,
    };
    let msg = render_unresolved("x", &scan);
    assert!(
        msg.contains("70 occurrence(s) across 70 file(s)"),
        "got: {msg}"
    );
    assert!(msg.contains("69 further file(s) not listed"), "got: {msg}");
    assert!(msg.contains("lower bounds"), "got: {msg}");
}

#[test]
fn position_beats_name_because_it_resolves_more_reliably() {
    let input = LspToolInput {
        operation: LspOperation::GoToDefinition,
        file_path: Some("src/main.rs".into()),
        line: Some(9),
        character: Some(14),
        query: Some("ignored".into()),
    };
    match resolve_target(&input) {
        Some(Target::Position { row, col, .. }) => {
            // 0-indexed in, 1-indexed out.
            assert_eq!((row, col), (10, 15));
        }
        _ => panic!("expected a position target"),
    }
}

#[test]
fn name_target_used_when_position_incomplete() {
    let input = LspToolInput {
        operation: LspOperation::WorkspaceSymbol,
        file_path: Some("src/main.rs".into()),
        line: Some(9),
        character: None,
        query: Some("  ChatChunkDelta  ".into()),
    };
    match resolve_target(&input) {
        Some(Target::Name(n)) => assert_eq!(n, "ChatChunkDelta"),
        _ => panic!("expected a name target"),
    }
}

#[test]
fn no_target_is_an_explicit_error_not_an_empty_answer() {
    let input = LspToolInput {
        operation: LspOperation::FindReferences,
        file_path: None,
        line: None,
        character: None,
        query: Some("   ".into()),
    };
    assert!(resolve_target(&input).is_none());
}

#[test]
fn whole_words_are_found_at_every_place() {
    assert!(contains_word("xa.a.a", "a.a"));
    assert!(!contains_word("anything", ""));
    assert!(!contains_word("", "x"));
    assert!(contains_word("(x)", "x"));
    assert!(!contains_word("x1", "x"));
    assert!(contains_word("é x é", "x"));
    assert!(contains_word("éxé", "x"));
    for b in 0..=255u8 {
        assert_eq!(is_ident_byte(b), b.is_ascii_alphanumeric() || b == b'_');
    }
}

#[test]
fn a_scan_lists_lines_and_counts_beyond_the_cap() {
    assert_eq!(scan_text("x\ny\nlet x = 1;\r\n", "x"), vec![1, 3]);
    let mut scan = LiteralScan::new();
    for i in 0..70 {
        assert!(scan.wants_more());
        scan.add_file(&format!("src\\f{i}.rs"), "x\nx x\n", "x");
        assert!(scan.wants_more());
        scan.add_file("other.rs", "nothing here\n", "x");
    }
    assert_eq!(scan.files_read, 140);
    assert_eq!(scan.result.total_files, 70);
    assert_eq!(scan.result.total_hits, 140);
    assert_eq!(scan.result.files.len(), FALLBACK_REPORT_FILES);
    assert_eq!(scan.result.files[0], ("src/f0.rs".to_string(), vec![1, 2]));
    assert_eq!(scan.result.files[59].0, "src/f59.rs");
    assert!(!scan.result.walk_truncated);
}

#[test]
fn a_scan_stops_at_the_file_limit() {
    let mut scan = LiteralScan::new();
    for _ in 0..FALLBACK_FILE_LIMIT {
        assert!(scan.wants_more());
        scan.add_file("a.rs", "", "x");
    }
    assert!(!scan.wants_more());
    assert!(scan.result.walk_truncated);
    assert_eq!(scan.result.total_files, 0);
}

#[test]
fn messages_are_spelled_out() {
    let locs = vec![SymbolLocation::new("src/a.rs", 12)];
    assert_eq!(render("f", "Definitions", &locs), "Definitions of `f` (1):\n  src/a.rs:12\n");
    let scan = ScanResult {
        files: vec![("src/a.rs".into(), (1..=13).collect())],
        total_hits: 14,
        total_files: 2,
        walk_truncated: true,
    };
    assert_eq!(
        render_unresolved("f", &scan),
        "The symbol index resolved no references for `f`. This does NOT mean there are none -- \
         resolution is known to fail for some methods and struct fields, so treat an index miss \
         as no information rather than as evidence that `f` is unused.\n\
         \nFalling back to a whole-word textual search: 14 occurrence(s) across 2 file(s).\n\
         \x20 src/a.rs (13): 1, 2, 3, 4, 5, 6, 7, 8, 9, 10, 11, 12, +1 more\n\
         \x20 ... and 1 further file(s) not listed.\n\
         \x20 (The search stopped early, so these counts are lower bounds.)\n\
         \nThese are textual matches, not resolved references: they include the definition, \
         comments and same-named symbols on other types.\n"
    );
    let none = ScanResult { walk_truncated: true, ..ScanResult::default() };
    let msg = render_unresolved("f", &none);
    assert!(msg.contains("also found no occurrences in the files searched (the search itself"));
}

fn request(operation: LspOperation, query: Option<&str>) -> LspToolInput {
    LspToolInput {
        operation,
        file_path: None,
        line: None,
        character: None,
        query: query.map(str::to_string),
    }
}

#[test]
fn a_request_is_planned() {
    for op in [LspOperation::Hover, LspOperation::GoToImplementation, LspOperation::DocumentSymbol] {
        match plan(&request(op, Some("f"))) {
            Step::Answer(answer) => {
                assert!(answer.is_error);
                assert_eq!(answer.text, unsupported(&op).text);
                assert!(answer.text.starts_with(&format!("`{}` needs a language server", op.name())));
            }
            step => panic!("unexpected {step:?}"),
        }
    }
    match plan(&request(LspOperation::FindReferences, Some(" f "))) {
        Step::Ask { lookup: Lookup::References, target: Target::Name(name) } => assert_eq!(name, "f"),
        step => panic!("unexpected {step:?}"),
    }
    match plan(&request(LspOperation::WorkspaceSymbol, Some("f"))) {
        Step::Ask { lookup: Lookup::Definitions, target: Target::Name(name) } => {
            assert_eq!(name, "f")
        }
        step => panic!("unexpected {step:?}"),
    }
    match plan(&request(LspOperation::GoToDefinition, None)) {
        Step::Answer(answer) => {
            assert!(answer.is_error);
            assert_eq!(answer.text, missing_target().text);
        }
        step => panic!("unexpected {step:?}"),
    }
}

#[test]
fn an_empty_reply_is_no_answer() {
    assert!(conclude(Lookup::References, None).is_none());
    assert!(conclude(Lookup::Definitions, Some(("f".into(), Vec::new()))).is_none());
    let locs = || vec![SymbolLocation::new("a.rs", 1)];
    let refs = conclude(Lookup::References, Some(("f".into(), locs()))).unwrap();
    assert!(!refs.is_error);
    assert_eq!(refs.text, format!("References of `f` (1):\n  a.rs:1\n{MACRO_CAVEAT}"));
    let defs = conclude(Lookup::Definitions, Some(("f".into(), locs()))).unwrap();
    assert_eq!(defs.text, "Definitions of `f` (1):\n  a.rs:1\n");
}

#[test]
fn a_failed_scan_is_an_error_and_no_evidence() {
    let failed = fallback_result("f", None);
    assert!(failed.is_error);
    assert!(failed.text.contains("not evidence that `f` is unused"), "got: {}", failed.text);
    let empty = ScanResult::default();
    let found = fallback_result("f", Some(&empty));
    assert!(!found.is_error);
    assert_eq!(found.text, render_unresolved("f", &empty));
}

#[test]
fn the_scan_looks_for_what_the_index_resolved() {
    let by_name = request(LspOperation::FindReferences, Some(" f\t"));
    let by_place = LspToolInput {
        operation: LspOperation::FindReferences,
        file_path: Some("a.rs".into()),
        line: Some(3),
        character: Some(7),
        query: None,
    };
    let resolved = |symbol: &str| Some((symbol.to_string(), Vec::new()));
    assert_eq!(fallback_symbol(&by_place, &resolved("foo")), "foo");
    assert_eq!(fallback_symbol(&by_name, &resolved("foo")), "foo");
    assert_eq!(fallback_symbol(&by_name, &resolved("")), "f");
    assert_eq!(fallback_symbol(&by_name, &None), "f");
    assert_eq!(fallback_symbol(&by_place, &None), "");
    assert_eq!(target_symbol(&by_name), "f");
    assert_eq!(target_symbol(&by_place), "");

    // A position that resolves without locations is asked of the text.
    let Step::Ask { lookup, .. } = plan(&by_place) else { panic!("the index is asked") };
    let symbol = fallback_symbol(&by_place, &resolved("foo"));
    assert!(conclude(lookup, resolved("foo")).is_none());
    let mut scan = LiteralScan::new();
    scan.add_file("src/b.rs", "let x = foo();\n", &symbol);
    let answer = fallback_result(&symbol, Some(&scan.result));
    assert!(!answer.is_error);
    assert!(answer.text.contains("  src/b.rs (1): 1\n"), "got: {}", answer.text);
    assert!(!answer.text.contains("no occurrences"), "got: {}", answer.text);
}

#[test]
fn without_a_name_nothing_is_claimed() {
    let scan = ScanResult::default();
    for scan in [Some(&scan), None] {
        let answer = fallback_result("", scan);
        assert!(answer.is_error);
        assert!(!answer.text.contains("no occurrences"), "got: {}", answer.text);
        assert!(answer.text.contains("no search completed"), "got: {}", answer.text);
    }
}

#[test]
fn a_backend_holds_its_root_and_index() {
    let backend = CodeGraphBackend::new("/root".to_string(), 7);
    assert_eq!((backend.root.as_str(), backend.index), ("/root", 7));
}
