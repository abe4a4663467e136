use axon::search::{
    base_score, candidate_limit, decay_age, display_score, header_level, is_content_free,
    is_evergreen_source, is_scaffold_template, is_structurally_empty, limited,
    lines_are_scaffolding, merge_lists, rank, results_of, search_results, supplement,
    weight_applies, BaseScore, Candidate, Fusion, Listed, Ranked,
};

const GLOBAL_STUB: &str = "# Global Memory\n\
     \n\
     > This file is automatically managed by Axon's memory system.\n\
     > You can also edit it manually — changes will be indexed on next session.\n\
     \n\
     ## Preferences\n\
     \n\
     <!-- Add any cross-project preferences here -->\n";

/// The shorter workspace stub variant.
const WORKSPACE_STUB: &str =
    "# Project Memory — /test\n\n> Auto-populated by dream consolidation. Edit freely.\n";


#[test]
fn test_is_evergreen_source() {
    assert!(is_evergreen_source("global"));
    assert!(is_evergreen_source("workspace"));
    assert!(!is_evergreen_source("session"));
    assert!(!is_evergreen_source("unknown"));
    assert!(!is_evergreen_source(""));
}

#[test]
fn test_access_boost_zero_access_is_neutral() {
    let boost = 1.0 + (0_f64).ln_1p() * 0.05;
    assert!(
        (boost - 1.0).abs() < f64::EPSILON,
        "zero accesses must yield a boost factor of exactly 1.0"
    );
}

#[test]
fn test_is_content_free_global_stub() {
    // Caught via the marker-based scaffold predicate (it has blockquote
    // disclaimer lines, so it is NOT structurally empty) — only on
    // evergreen sources, where the stubs live.
    assert!(
        is_content_free(GLOBAL_STUB, "global"),
        "the unedited global MEMORY.md stub must be content-free"
    );
    assert!(
        is_content_free(WORKSPACE_STUB, "workspace"),
        "the auto-generated workspace stub must be content-free"
    );
}

#[test]
fn test_is_content_free_scaffolding_only() {
    // The structural branch applies to ALL sources — use "session" here.
    assert!(
        is_content_free("# Heading\n## Subheading", "session"),
        "headings only"
    );
    assert!(
        is_content_free("<!-- just a comment -->", "session"),
        "comment only (single line)"
    );
    assert!(
        is_content_free("<!--\nmulti\nline\ncomment\n-->", "session"),
        "comment only (multi-line)"
    );
    assert!(is_content_free("", "session"), "empty string");
    assert!(is_content_free("   \n\t\n  ", "session"), "whitespace only");
    assert!(
        is_content_free("# Heading\n\n<!-- a comment -->\n\n## Another", "session"),
        "headings + comments only"
    );
    assert!(
        is_content_free("   # Indented Heading", "session"),
        "indented ATX heading is still a heading"
    );
}

#[test]
fn test_is_content_free_real_content() {
    // Use "global" (evergreen) so both filter branches are active; real
    // content must survive regardless.
    assert!(
        !is_content_free("## Preferences\n\n- Use tabs", "global"),
        "heading with a following bullet has real content"
    );
    assert!(
        !is_content_free("Use C# for this", "global"),
        "a `#` mid-line is real content, not a heading"
    );
    assert!(
        !is_content_free("#hashtag not a heading", "global"),
        "`#` with no following space is not an ATX heading (per header_level)"
    );
    assert!(
        !is_content_free("# Title\n\nSome actual prose here.", "global"),
        "prose after a heading is real content"
    );
    assert!(
        !is_content_free("<!-- comment -->\nactual content", "global"),
        "content after a comment counts"
    );
    assert!(
        !is_content_free("- a\n- b", "global"),
        "list-only chunk is content"
    );
    assert!(
        !is_content_free("Title\n=====", "global"),
        "setext heading underline counts as content"
    );
    assert!(
        !is_content_free("```\nlet x = 1;\n```", "global"),
        "code-fence chunk is content"
    );
}

#[test]
fn test_is_content_free_marker_branch_scoped_to_evergreen() {
    // A short session note that happens to quote a scaffold marker phrase.
    let quotes_marker =
        "Reminder: the template says \"Add any cross-project preferences here\".";
    assert!(
        !is_content_free(quotes_marker, "session"),
        "non-evergreen chunk quoting a marker phrase must NOT be filtered"
    );
    assert!(
        is_content_free(quotes_marker, "global"),
        "the same short text on an evergreen source is treated as scaffold"
    );
}

#[test]
fn test_is_content_free_preserves_blockquotes() {
    assert!(
        !is_content_free("> a quote\n> another quote", "global"),
        "blockquote-only user notes must be preserved"
    );
    assert!(
        !is_content_free(
            "## Important\n> Always run migrations before deploy",
            "global"
        ),
        "heading + blockquote with real guidance must be preserved"
    );
}

#[test]
fn test_is_content_free_unterminated_comment_keeps_content() {
    assert!(
        !is_content_free("real text\n<!-- unterminated", "global"),
        "content before an unterminated comment must be kept"
    );
    assert!(
        !is_content_free("<!-- unterminated comment, no closer\nmore text", "global"),
        "content after an unterminated comment must be kept"
    );
}

#[test]
fn headings_are_told_by_their_marks() {
    let level = |s: &str| header_level(&s.chars().collect::<Vec<char>>());
    assert_eq!(level("# a"), Some(1));
    assert_eq!(level("  ###### a"), Some(6));
    assert_eq!(level("##"), Some(2));
    assert_eq!(level("##\ta"), Some(2));
    assert_eq!(level("####### a"), None);
    assert_eq!(level("#a"), None);
    assert_eq!(level(""), None);
    assert_eq!(level("a # b"), None);
}

#[test]
fn comments_are_cut_out_wherever_they_close() {
    assert!(is_structurally_empty("# A <!-- x -->\n<!-- y\nz -->"));
    assert!(!is_structurally_empty("<!-- a --> b <!-- c -->"));
    assert!(is_structurally_empty("<!-- a --><!-- b -->"));
    assert!(!is_structurally_empty("<!-- a --> <!-- b"));
    assert!(is_structurally_empty("<!---->"));
    assert!(!is_structurally_empty("<!-->"));
    assert!(lines_are_scaffolding("# A\r\n\r\n## B\r\n"));
    assert!(!lines_are_scaffolding("# A\ntext"));
    assert!(is_scaffold_template("> Auto-populated by dream consolidation."));
    assert!(!is_scaffold_template("> Auto-populated by dream consolidation.\nMine."));
}

fn strings(ids: &[&str]) -> Vec<String> {
    ids.iter().map(|id| id.to_string()).collect()
}

#[test]
fn only_missing_hits_are_supplemented() {
    let found = strings(&["a", "b"]);
    assert_eq!(supplement(&found, &strings(&["b", "c", "a", "d", "c"])), vec![1, 3, 4]);
    assert_eq!(supplement(&[], &strings(&["x"])), vec![0]);
    assert_eq!(supplement(&found, &[]), Vec::<usize>::new());
    assert_eq!(candidate_limit(7), 21);
}

fn list(ids: &[(&str, bool)]) -> Vec<Listed> {
    ids.iter().map(|(id, on)| Listed { id: id.to_string(), on: *on }).collect()
}

#[test]
fn lists_are_merged_by_id() {
    let text = list(&[("a", true), ("b", false), ("c", true), ("a", true)]);
    let vector = list(&[("d", true), ("c", true), ("b", false)]);
    let merged: Vec<(String, Vec<usize>, Vec<usize>)> =
        merge_lists(&text, &vector).into_iter().map(|m| (m.id, m.text, m.vector)).collect();
    assert_eq!(
        merged,
        vec![
            ("a".to_string(), vec![1, 4], vec![]),
            ("c".to_string(), vec![3], vec![2]),
            ("d".to_string(), vec![], vec![1]),
        ]
    );
    assert!(merge_lists(&[], &[]).is_empty());
}

#[test]
fn a_keyword_match_is_never_penalized_for_lacking_a_vector() {
    assert_eq!(base_score(true, true), BaseScore::Combined);
    assert_eq!(base_score(true, false), BaseScore::TextOnly);
    assert_eq!(base_score(false, true), BaseScore::VectorOnly);
    assert_eq!(base_score(false, false), BaseScore::VectorOnly);
}

#[test]
fn only_session_chunks_age() {
    let day = 86400;
    assert_eq!(decay_age("session", 0, 30 * day, true), Some(30 * day));
    assert_eq!(decay_age("session", 0, 30 * day, false), None);
    assert_eq!(decay_age("global", 0, 30 * day, true), None);
    assert_eq!(decay_age("workspace", 0, 30 * day, true), None);
    assert_eq!(decay_age("session", 1_000_000, 1_000_000, true), Some(0));
    assert_eq!(decay_age("session", 1_000_000 + day, 1_000_000, true), Some(0));
    assert_eq!(decay_age("session", -5, 100, true), Some(100));
}

#[test]
fn shown_scores_agree_with_floating_point() {
    let values = [
        -1.0,
        -0.0,
        0.0,
        f64::MIN_POSITIVE,
        0.35,
        0.999,
        1.0,
        1.0 + f64::EPSILON,
        1.23,
        f64::MAX,
        f64::INFINITY,
        f64::NEG_INFINITY,
    ];
    for value in values {
        let shown = f64::from_bits(display_score(value.to_bits()));
        assert_eq!(shown.to_bits(), value.clamp(0.0, 1.0).to_bits(), "{value}");
    }
    assert!(f64::from_bits(display_score(f64::NAN.to_bits())).is_nan());
}

fn candidate(text: &str, source: &str, raw: f64) -> Candidate {
    Candidate {
        chunk_id: format!("{text}:0"),
        path: format!("/m/{text}.md"),
        start_line: 3,
        end_line: 9,
        text: text.into(),
        source: source.into(),
        created_at: 77,
        raw: raw.to_bits(),
    }
}

fn indices(ranked: &[Ranked]) -> Vec<usize> {
    ranked.iter().map(|r| r.index).collect()
}

#[test]
fn ranking_filters_sorts_and_clamps() {
    let candidates = [
        candidate("real text", "session", 0.4),
        candidate("# Heading", "session", 5.0),
        candidate("boosted", "workspace", 1.2),
        candidate("twin", "workspace", 1.1),
        candidate("weak", "global", 0.1),
        candidate("also 0.4", "session", 0.4),
        candidate("broken", "session", f64::NAN),
        candidate("negative", "session", -3.0),
    ];
    let ranked = rank(&candidates, 0.35f64.to_bits());
    assert_eq!(indices(&ranked), vec![2, 3, 0, 5]);
    assert_eq!(f64::from_bits(ranked[0].display), 1.0);
    assert_eq!(f64::from_bits(ranked[1].display), 1.0);
    assert_eq!(f64::from_bits(ranked[0].raw), 1.2);
    assert_eq!(f64::from_bits(ranked[2].display), 0.4);
    // At threshold zero a negative score is shown as zero, and kept.
    assert_eq!(indices(&rank(&candidates, 0.0f64.to_bits())), vec![2, 3, 0, 5, 4, 7]);
    assert!(rank(&candidates, f64::NAN.to_bits()).is_empty());
}

#[test]
fn results_are_cut_and_show_the_chunk() {
    let candidates = [
        candidate("low", "session", 0.5),
        candidate("high", "global", 1.5),
        candidate("middle", "workspace", 0.75),
    ];
    let ranked = rank(&candidates, 0.0f64.to_bits());
    assert_eq!(results_of(&candidates, &ranked).len(), 3);
    assert_eq!(indices(&limited(ranked, 2)), vec![1, 2]);
    assert_eq!(limited(vec![1, 2, 3], 5), vec![1, 2, 3]);
    assert_eq!(limited(vec![1, 2, 3], 0), Vec::<i32>::new());
    let results = search_results(&candidates, 0.0f64.to_bits(), 2);
    assert_eq!(results.len(), 2);
    assert_eq!(results[0].chunk_id, "high:0");
    assert_eq!(results[0].path, "/m/high.md");
    assert_eq!((results[0].start_line, results[0].end_line), (3, 9));
    assert_eq!(f64::from_bits(results[0].score), 1.0);
    assert_eq!(results[0].snippet, "high");
    assert_eq!(results[0].source, "global");
    assert_eq!(results[0].created_at, 77);
    assert_eq!(results[1].chunk_id, "middle:0");
    assert_eq!(f64::from_bits(results[1].score), 0.75);
}

#[test]
fn fusion_defaults_to_weighted() {
    assert_eq!(Fusion::default(), Fusion::Weighted);
}

#[test]
fn rank_fusion_uses_the_source_weight_up() {
    assert!(weight_applies(Fusion::Weighted));
    assert!(!weight_applies(Fusion::Rrf));
}
