use axon::tail_repetition::{
    detect, distinct_bytes, DoomLoopSignalKind, TailRepetitionWatch, CHANNEL_RESPONSE,
    CHANNEL_THINKING, MIN_SPAN,
};


/// The failure that motivated this: a reasoning parser left inert, so the
/// model's close tag leaked into content and repeated 863 times.
#[test]
fn detects_the_think_tag_storm() {
    let text = "</think>".repeat(863);
    let found = detect(&text).expect("storm must be detected");
    assert_eq!(found.period, 8);
    assert!(found.repeats >= 100, "repeats: {}", found.repeats);
}

#[test]
fn detects_single_character_degeneration() {
    let text = format!("Here is the answer: {}", "a".repeat(1200));
    let found = detect(&text).expect("runaway single char must be detected");
    assert_eq!(found.period, 1);
}

#[test]
fn reports_the_shortest_unit_not_a_multiple() {
    let text = "ab".repeat(600);
    let found = detect(&text).expect("detected");
    assert_eq!(found.period, 2, "must report the true unit, not 4 or 6");
}

// ---- false-positive shapes: legitimate output that must NOT trip ----

#[test]
fn markdown_table_is_not_a_loop() {
    let mut t = String::from("| name | value | note |\n|---|---|---|\n");
    for i in 0..200 {
        t.push_str(&format!("| row_{i} | {i} | note number {i} |\n"));
    }
    assert_eq!(detect(&t), None, "table rows differ, so not byte-periodic");
}

#[test]
fn json_array_of_similar_objects_is_not_a_loop() {
    let mut t = String::from("[\n");
    for i in 0..300 {
        t.push_str(&format!("  {{\"id\": {i}, \"ok\": true}},\n"));
    }
    assert_eq!(detect(&t), None);
}

#[test]
fn horizontal_rule_is_not_a_loop() {
    let t = format!("Section\n{}\nNext section\n", "-".repeat(300));
    assert_eq!(
        detect(&t),
        None,
        "a long rule is ASCII art, and it is not at the tail anyway"
    );
}

/// The bar keys on the unit's byte diversity, so every description of a run
/// agrees.
#[test]
fn a_rule_at_the_tail_is_rejected_at_every_period() {
    let t = format!("Section\n{}", "-".repeat(300));
    assert_eq!(detect(&t), None);
    for pad in [0usize, 1, 2, 3] {
        let t = format!("Section\n{}", "-".repeat(300 + pad));
        assert_eq!(detect(&t), None, "pad {pad} must not qualify");
    }
}

#[test]
fn blank_line_runs_are_low_diversity_and_need_a_long_run() {
    let t = format!("Done.{}", "\n".repeat(300));
    assert_eq!(detect(&t), None);
}

#[test]
fn indented_code_block_is_not_a_loop() {
    let mut t = String::new();
    for i in 0..120 {
        t.push_str(&format!("    let value_{i} = compute({i});\n"));
    }
    assert_eq!(detect(&t), None);
}

#[test]
fn ordinary_prose_is_not_a_loop() {
    let t = "The quick brown fox jumps over the lazy dog. ".repeat(3);
    assert_eq!(detect(&t), None, "too few repeats and too short a span");
}

#[test]
fn short_input_is_never_a_loop() {
    assert_eq!(detect(""), None);
    assert_eq!(detect("hello"), None);
    assert_eq!(
        detect(&"ab".repeat(20)),
        None,
        "span 40 is far under the bar"
    );
}

#[test]
fn multibyte_text_does_not_panic_and_still_detects() {
    // Byte-level periodicity holds for repeated multi-byte sequences.
    let t = "→→".repeat(400);
    let found = detect(&t).expect("detected");
    assert!(found.span >= MIN_SPAN);
}

// ---- streaming wrapper ----

#[test]
fn watch_reports_once_and_then_stays_quiet() {
    let mut watch = TailRepetitionWatch::default();
    let acc = "</think>".repeat(400);
    let first = watch.observe(&acc, CHANNEL_RESPONSE);
    assert!(first.is_some(), "first crossing must report");
    let longer = "</think>".repeat(800);
    assert!(
        watch.observe(&longer, CHANNEL_RESPONSE).is_none(),
        "must not spam once reported"
    );
}

#[test]
fn watch_emits_a_label_matching_the_server_grammar() {
    let mut watch = TailRepetitionWatch::default();
    let acc = "</think>".repeat(400);
    let signal = watch.observe(&acc, CHANNEL_THINKING).expect("signal");
    assert!(matches!(signal.kind, DoomLoopSignalKind::TailRepetition(_)));
    assert_eq!(signal.channel, CHANNEL_THINKING);
    assert!(
        signal.raw.starts_with("tail_repetition:"),
        "raw: {}",
        signal.raw
    );
}

/// Measures the cost of the watch over a realistic response. Printed with
/// `--nocapture`; the assertion is a loose regression guard, not a
/// benchmark.
#[test]
fn watch_cost_over_a_full_response_is_negligible() {
    let start = std::time::Instant::now();
    let mut watch = TailRepetitionWatch::default();
    let mut acc = String::new();
    // ~4000 deltas of a few bytes each: a long local-model response.
    for i in 0..4000 {
        acc.push_str("word ");
        acc.push_str(&i.to_string());
        acc.push(' ');
        let _ = watch.observe(&acc, CHANNEL_RESPONSE);
    }
    let elapsed = start.elapsed();
    println!(
        "tail-repetition watch: {} deltas, {} bytes accumulated, total {:?} ({:?}/delta)",
        4000,
        acc.len(),
        elapsed,
        elapsed / 4000
    );
    assert!(
        elapsed < std::time::Duration::from_millis(500),
        "watch cost {elapsed:?} over a whole response -- suspect an algorithmic regression"
    );
}

#[test]
fn watch_stays_quiet_on_healthy_output() {
    let mut watch = TailRepetitionWatch::default();
    let mut acc = String::new();
    for i in 0..400 {
        acc.push_str(&format!("token {i} "));
        assert!(watch.observe(&acc, CHANNEL_RESPONSE).is_none());
    }
}

#[test]
fn a_detection_describes_the_tail() {
    let text = format!("start {}", "abc".repeat(400));
    let found = detect(&text).unwrap();
    assert_eq!(found.period, 3);
    let bytes = text.as_bytes();
    let tail = &bytes[bytes.len() - found.span..];
    for i in found.period..tail.len() {
        assert_eq!(tail[i], tail[i - found.period]);
    }
    assert_eq!(found.span / found.period, found.repeats as usize);
}

#[test]
fn only_the_window_matters() {
    let tail = "xyz".repeat(4000);
    let short = detect(&tail).unwrap();
    let long = detect(&format!("{}{}", "other text, quite long ".repeat(900), tail)).unwrap();
    assert_eq!(short, long);
}

#[test]
fn distinct_bytes_counts_each_byte_once() {
    assert_eq!(distinct_bytes(b""), 0);
    assert_eq!(distinct_bytes(b"----"), 1);
    assert_eq!(distinct_bytes(b"abab"), 2);
    assert_eq!(distinct_bytes(b"</think>"), 8);
}

#[test]
fn a_low_diversity_run_needs_a_longer_span() {
    assert_eq!(detect(&"ab".repeat(200)), None);
    assert!(detect(&"ab".repeat(300)).is_some());
    assert!(detect(&"abcdefgh".repeat(40)).is_some());
}

#[test]
fn the_watch_names_the_count_in_its_label() {
    let mut watch = TailRepetitionWatch::default();
    let acc = "</think>".repeat(400);
    let signal = watch.observe(&acc, CHANNEL_RESPONSE).unwrap();
    let DoomLoopSignalKind::TailRepetition(n) = signal.kind;
    assert!(signal.raw.contains(&n.to_string()), "raw: {}", signal.raw);
    assert_eq!(detect(&acc).unwrap().repeats, n);
}
