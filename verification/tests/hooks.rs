use axon::hooks::{
    truncate_payload, truncate_text, HookEventEnvelope, HookEventName, HookPayload, ModelUsage,
    SubagentModelUsage, MAX_PAYLOAD_SIZE,
};
use serde_json::Value;

fn object(members: &[(&str, Value)]) -> Value {
    let mut map = serde_json::Map::new();
    for (key, value) in members {
        map.insert(key.to_string(), value.clone());
    }
    Value::Object(map)
}


/// The camelCase names a hook script actually reads, and the promise that
/// an empty ledger adds nothing to the payload.
#[test]
fn stop_reports_only_this_turn_not_the_session() {
    let payload = HookPayload::Stop {
        reason: "end_turn".into(),
        usage_by_model: vec![ModelUsage {
            model: "qwen38".into(),
            input_tokens: 12_000,
            output_tokens: 340,
            model_calls: 1,
            api_duration_ms: 17_800,
        }],
        usage_incomplete: false,
        is_subagent: false,
    };
    let json = payload.to_value();
    assert_eq!(json["reason"], "end_turn");
    assert!(
        json.get("isSubagent").is_none(),
        "a parent turn must not carry the subagent marker: {json}"
    );
    assert_eq!(json["usageByModel"][0]["outputTokens"], 340);
    assert_eq!(json["usageByModel"][0]["apiDurationMs"], 17_800);
    // A context size is session-scoped. Putting it on a per-turn event
    // beside per-turn counters is how a reader ends up dividing one by the
    // other, which is the mistake `usageByModel` exists to prevent.
    assert!(
        json.get("tokensUsed").is_none(),
        "Stop must not carry a session-scoped context size: {json}"
    );
}

#[test]
fn teardown_stop_reports_no_turn_usage_and_no_caveat() {
    // The `Stop`s fired while a session closes are not turn ends. Empty
    // AND unflagged is correct there: nothing ran, so nothing is missing.
    let payload = HookPayload::Stop {
        reason: "shutdown".into(),
        usage_by_model: Vec::new(),
        usage_incomplete: false,
        is_subagent: false,
    };
    let json = payload.to_value();
    assert!(json.get("usageByModel").is_none());
    assert!(json.get("usageIncomplete").is_none());
}

#[test]
fn session_end_usage_by_model_reaches_the_wire() {
    let payload = HookPayload::SessionEnd {
        reason: "shutdown".into(),
        turn_count: Some(12),
        tool_call_count: Some(48),
        tokens_used: Some(187_598),
        usage_by_model: vec![ModelUsage {
            model: "qwen38".into(),
            input_tokens: 180_000,
            output_tokens: 7_598,
            model_calls: 12,
            api_duration_ms: 400_000,
        }],
        usage_incomplete: false,
        is_subagent: false,
    };
    let json = payload.to_value();
    let entry = &json["usageByModel"][0];
    assert_eq!(entry["model"], "qwen38");
    assert_eq!(entry["inputTokens"], 180_000);
    // Same reason as the subagent case: `tokensUsed` is a context size, so
    // only `outputTokens` says what the session produced and only
    // `apiDurationMs` is an honest denominator for a rate.
    assert_eq!(entry["outputTokens"], 7_598);
    assert_eq!(entry["apiDurationMs"], 400_000);
    assert_eq!(entry["modelCalls"], 12);
    assert_eq!(json["turnCount"], 12);
    assert_eq!(json["toolCallCount"], 48);
    assert!(
        json.get("usageIncomplete").is_none(),
        "a complete bill must not carry the caveat: {json}"
    );
    assert!(
        json.get("isSubagent").is_none(),
        "a top-level session must not carry the subagent marker: {json}"
    );
    // Cost stays off the wire here too.
    assert!(entry.get("costUsdTicks").is_none());
}

#[test]
fn session_end_marks_a_subagent_so_a_consumer_can_avoid_double_counting() {
    // A subagent session emits BOTH SubagentStop and SessionEnd for the
    // same run. Nothing else in the payload distinguishes them, so a
    // consumer that books both counts that run twice.
    let payload = HookPayload::SessionEnd {
        reason: "shutdown".into(),
        turn_count: Some(1),
        tool_call_count: Some(2),
        tokens_used: Some(6_641),
        usage_by_model: Vec::new(),
        usage_incomplete: false,
        is_subagent: true,
    };
    let json = payload.to_value();
    assert_eq!(json["isSubagent"], true);
}

#[test]
fn session_end_reports_an_unreadable_ledger_as_flagged_not_free() {
    // The distinction that matters: empty usage WITH the flag means the
    // session ran and its ledger was lost. Empty usage WITHOUT the flag
    // would claim it genuinely spent nothing.
    let payload = HookPayload::SessionEnd {
        reason: "channel_closed".into(),
        turn_count: None,
        tool_call_count: None,
        tokens_used: None,
        usage_by_model: Vec::new(),
        usage_incomplete: true,
        is_subagent: false,
    };
    let json = payload.to_value();
    assert!(
        json.get("usageByModel").is_none(),
        "empty usage is omitted, not sent as []: {json}"
    );
    assert_eq!(
        json["usageIncomplete"], true,
        "an unreadable ledger must be flagged, or it reads as a free session: {json}"
    );
    assert!(json.get("tokensUsed").is_none());
}

#[test]
fn subagent_stop_usage_by_model_reaches_the_wire() {
    let payload = HookPayload::SubagentStop {
        subagent_id: "sa-1".into(),
        subagent_type: "executor".into(),
        description: None,
        exit_code: Some(0),
        duration_ms: Some(41_000),
        tokens_used: Some(31_200),
        tool_calls: Some(6),
        turns: Some(9),
        usage_by_model: vec![SubagentModelUsage {
            model: "laguna".into(),
            input_tokens: 30_000,
            output_tokens: 1_200,
            model_calls: 9,
            api_duration_ms: 18_000,
        }],
        usage_incomplete: false,
        error: None,
    };
    let json = payload.to_value();
    let entry = &json["usageByModel"][0];
    assert_eq!(entry["model"], "laguna");
    assert_eq!(entry["inputTokens"], 30_000);
    // The whole reason this field exists: `tokensUsed` is a context size,
    // so only `outputTokens` can answer what the seat produced, and only
    // `apiDurationMs` is an honest denominator for a rate.
    assert_eq!(entry["outputTokens"], 1_200);
    assert_eq!(entry["apiDurationMs"], 18_000);
    assert_eq!(entry["modelCalls"], 9);
    assert!(
        json.get("usageIncomplete").is_none(),
        "a complete bill must not carry the caveat: {json}"
    );
    // Cost is a vendor concept and always absent here. On the wire it would
    // only invite a reader to divide by zero and trust the result.
    assert!(entry.get("costUsdTicks").is_none());
    assert!(entry.get("cost_usd_ticks").is_none());
}

#[test]
fn subagent_stop_omits_usage_when_nothing_ran_but_keeps_the_caveat() {
    let mut payload = HookPayload::SubagentStop {
        subagent_id: "sa-2".into(),
        subagent_type: "scout".into(),
        description: None,
        exit_code: Some(-1),
        duration_ms: Some(2),
        tokens_used: Some(0),
        tool_calls: Some(0),
        turns: Some(0),
        usage_by_model: Vec::new(),
        usage_incomplete: false,
        error: None,
    };
    let json = payload.to_value();
    assert!(json.get("usageByModel").is_none());
    assert!(json.get("usageIncomplete").is_none());

    // A run whose ledger was lost must say so, or empty usage reads as free.
    if let HookPayload::SubagentStop {
        usage_incomplete, ..
    } = &mut payload
    {
        *usage_incomplete = true;
    }
    let json = payload.to_value();
    assert_eq!(json["usageIncomplete"], true);
}

#[test]
fn event_name_deser_all_variants() {
    let cases: &[(&str, &str, HookEventName)] = &[
        ("SessionStart", "session_start", HookEventName::SessionStart),
        ("PreToolUse", "pre_tool_use", HookEventName::PreToolUse),
        ("PostToolUse", "post_tool_use", HookEventName::PostToolUse),
        (
            "PostToolUseFailure",
            "post_tool_use_failure",
            HookEventName::PostToolUseFailure,
        ),
        ("SessionEnd", "session_end", HookEventName::SessionEnd),
        ("Stop", "stop", HookEventName::Stop),
        ("StopFailure", "stop_failure", HookEventName::StopFailure),
        ("Notification", "notification", HookEventName::Notification),
        (
            "UserPromptSubmit",
            "user_prompt_submit",
            HookEventName::UserPromptSubmit,
        ),
        (
            "PermissionDenied",
            "permission_denied",
            HookEventName::PermissionDenied,
        ),
        (
            "SubagentStart",
            "subagent_start",
            HookEventName::SubagentStart,
        ),
        ("SubagentStop", "subagent_stop", HookEventName::SubagentStop),
        ("SubagentEnd", "subagent_end", HookEventName::SubagentEnd),
        ("PreCompact", "pre_compact", HookEventName::PreCompact),
        ("PostCompact", "post_compact", HookEventName::PostCompact),
    ];

    for (pascal, snake, expected) in cases {
        let from_pascal: HookEventName = HookEventName::from_name(pascal).unwrap();
        assert_eq!(
            from_pascal, *expected,
            "PascalCase deser failed for {pascal}"
        );

        let from_snake: HookEventName = HookEventName::from_name(snake).unwrap();
        assert_eq!(from_snake, *expected, "snake_case deser failed for {snake}");
    }
}

#[test]
fn event_name_display_all_variants() {
    let cases: &[(HookEventName, &str)] = &[
        (HookEventName::SessionStart, "session_start"),
        (HookEventName::PreToolUse, "pre_tool_use"),
        (HookEventName::PostToolUse, "post_tool_use"),
        (HookEventName::PostToolUseFailure, "post_tool_use_failure"),
        (HookEventName::SessionEnd, "session_end"),
        (HookEventName::Stop, "stop"),
        (HookEventName::StopFailure, "stop_failure"),
        (HookEventName::Notification, "notification"),
        (HookEventName::UserPromptSubmit, "user_prompt_submit"),
        (HookEventName::PermissionDenied, "permission_denied"),
        (HookEventName::SubagentStart, "subagent_start"),
        (HookEventName::SubagentStop, "subagent_stop"),
        (HookEventName::SubagentEnd, "subagent_stop"), // alias collapses
        (HookEventName::PreCompact, "pre_compact"),
        (HookEventName::PostCompact, "post_compact"),
    ];
    for (event, expected) in cases {
        assert_eq!(&event.display_name(), expected, "Display wrong for {event:?}");
    }
}

#[test]
fn event_name_serde_roundtrip() {
    let name = HookEventName::PreToolUse;
    let json = serde_json::to_string(name.wire_name()).unwrap();
    assert_eq!(json, "\"pre_tool_use\"");
    let spelled: String = serde_json::from_str(&json).unwrap();
    let parsed: HookEventName = HookEventName::from_name(&spelled).unwrap();
    assert_eq!(parsed, name);
}

#[test]
fn event_name_unknown_rejected() {
    let result = HookEventName::from_name("UnknownEvent");
    assert!(result.is_err());
}

#[test]
fn event_name_is_blocking() {
    assert!(HookEventName::PreToolUse.is_blocking());
    for event in [
        HookEventName::SessionStart,
        HookEventName::PostToolUse,
        HookEventName::PostToolUseFailure,
        HookEventName::SessionEnd,
        HookEventName::Stop,
        HookEventName::StopFailure,
        HookEventName::Notification,
        HookEventName::UserPromptSubmit,
        HookEventName::PermissionDenied,
        HookEventName::SubagentStart,
        HookEventName::SubagentStop,
        HookEventName::SubagentEnd,
        HookEventName::PreCompact,
        HookEventName::PostCompact,
    ] {
        assert!(!event.is_blocking(), "{event:?} should not be blocking");
    }
}

#[test]
fn event_name_is_lifecycle() {
    let lifecycle = [
        HookEventName::SessionStart,
        HookEventName::SessionEnd,
        HookEventName::Stop,
        HookEventName::UserPromptSubmit,
    ];
    for event in lifecycle {
        assert!(event.is_lifecycle(), "{event:?} should be lifecycle");
    }

    let matchable = [
        HookEventName::PreToolUse,
        HookEventName::PostToolUse,
        HookEventName::PostToolUseFailure,
        HookEventName::PermissionDenied,
        HookEventName::StopFailure,
        HookEventName::Notification,
        HookEventName::SubagentStart,
        HookEventName::SubagentStop,
        HookEventName::SubagentEnd,
        HookEventName::PreCompact,
        HookEventName::PostCompact,
    ];
    for event in matchable {
        assert!(
            !event.is_lifecycle(),
            "{event:?} should support matchers, not be lifecycle"
        );
    }
}

#[test]
fn truncate_small_payload() {
    let value = object(&[("key", Value::from("small"))]);
    let (result, truncated) = truncate_payload(value.clone());
    assert!(!truncated);
    assert_eq!(result, value);
}

#[test]
fn truncate_large_payload() {
    let big_string = "x".repeat(MAX_PAYLOAD_SIZE + 1000);
    let value = serde_json::Value::String(big_string);
    let (result, truncated) = truncate_payload(value);
    assert!(truncated);
    let s = result.as_str().unwrap();
    assert!(s.ends_with("[truncated]"));
    // Serialized size of the result string value should be <= MAX_PAYLOAD_SIZE + overhead
    assert!(s.len() < MAX_PAYLOAD_SIZE + 100);
}

#[test]
fn truncate_large_payload_cuts_on_char_boundary() {
    // '€' is 3 bytes, so the MAX_PAYLOAD_SIZE-th byte lands mid-codepoint.
    let value = serde_json::Value::String("€".repeat(MAX_PAYLOAD_SIZE));
    let (result, truncated) = truncate_payload(value);
    assert!(truncated);
    assert!(result.as_str().unwrap().ends_with("[truncated]"));
}

#[test]
fn envelope_serializes_camel_case() {
    let envelope = HookEventEnvelope {
        hook_event_name: HookEventName::SessionStart,
        session_id: "test-session".into(),
        cwd: "/tmp".into(),
        workspace_root: "/tmp".into(),
        timestamp: "2025-01-01T00:00:00Z".into(),
        transcript_path: None,
        client_identifier: None,
        prompt_id: None,
        payload: HookPayload::SessionStart {
            source: "new".into(),
            model_id: Some("axon-3".into()),
            agent_type: None,
        },
    };
    let json = envelope.to_value().to_string();
    assert!(json.contains("hookEventName"));
    assert!(json.contains("sessionId"));
    assert!(json.contains("workspaceRoot"));
    assert!(json.contains("modelId"));
    // Should NOT contain snake_case versions
    assert!(!json.contains("hook_event_name"));
    assert!(!json.contains("session_id"));
}

fn usage(model: &str) -> ModelUsage {
    ModelUsage {
        model: model.into(),
        input_tokens: 1,
        output_tokens: 2,
        model_calls: 3,
        api_duration_ms: 4,
    }
}

const ALL_EVENTS: [HookEventName; 15] = [
    HookEventName::SessionStart,
    HookEventName::SessionEnd,
    HookEventName::Stop,
    HookEventName::StopFailure,
    HookEventName::PreToolUse,
    HookEventName::PostToolUse,
    HookEventName::PostToolUseFailure,
    HookEventName::PermissionDenied,
    HookEventName::UserPromptSubmit,
    HookEventName::Notification,
    HookEventName::SubagentStart,
    HookEventName::SubagentStop,
    HookEventName::SubagentEnd,
    HookEventName::PreCompact,
    HookEventName::PostCompact,
];

#[test]
fn wire_names_read_back_and_are_distinct() {
    for a in ALL_EVENTS {
        assert_eq!(HookEventName::from_name(a.wire_name()), Ok(a));
        for b in ALL_EVENTS {
            assert_eq!(a == b, a.wire_name() == b.wire_name());
        }
    }
}

#[test]
fn display_names_read_back_as_the_canonical_event() {
    for event in ALL_EVENTS {
        assert_eq!(HookEventName::from_name(event.display_name()), Ok(event.canonical()));
        assert_eq!(event.canonical().canonical(), event.canonical());
    }
}

#[test]
fn names_of_other_tools_are_understood() {
    assert_eq!(HookEventName::from_name("preToolUse"), Ok(HookEventName::PreToolUse));
    assert_eq!(HookEventName::from_name("beforeShellExecution"), Ok(HookEventName::PreToolUse));
    assert_eq!(HookEventName::from_name("afterFileEdit"), Ok(HookEventName::PostToolUse));
    let error = HookEventName::from_name("nonsense").unwrap_err();
    assert!(error.contains("nonsense"), "got: {error}");
}

#[test]
fn usage_holds_exactly_its_five_members() {
    let value = usage("m").to_value();
    assert_eq!(
        value,
        object(&[
            ("model", Value::from("m")),
            ("inputTokens", Value::from(1)),
            ("outputTokens", Value::from(2)),
            ("modelCalls", Value::from(3)),
            ("apiDurationMs", Value::from(4)),
        ])
    );
    assert_eq!(ModelUsage::default().to_value()["model"], "");
}

#[test]
fn every_payload_reaches_the_wire() {
    let input = object(&[("path", Value::from("a.rs"))]);
    let cases: Vec<(HookPayload, Value)> = vec![
        (
            HookPayload::StopFailure { error: "e".into() },
            object(&[("error", Value::from("e"))]),
        ),
        (
            HookPayload::PreCompact { source: "auto".into() },
            object(&[("source", Value::from("auto"))]),
        ),
        (
            HookPayload::PostCompact { source: "manual".into() },
            object(&[("source", Value::from("manual"))]),
        ),
        (
            HookPayload::UserPromptSubmit { prompt: Some("hi".into()) },
            object(&[("prompt", Value::from("hi"))]),
        ),
        (
            HookPayload::SubagentStart {
                subagent_id: "s".into(),
                subagent_type: "scout".into(),
                description: None,
            },
            object(&[("subagentId", Value::from("s")), ("subagentType", Value::from("scout"))]),
        ),
        (
            HookPayload::PermissionDenied {
                tool_name: "edit".into(),
                tool_use_id: "t".into(),
                tool_input: input.clone(),
                tool_input_truncated: false,
            },
            object(&[
                ("toolName", Value::from("edit")),
                ("toolUseId", Value::from("t")),
                ("toolInput", input.clone()),
                ("toolInputTruncated", Value::from(false)),
            ]),
        ),
    ];
    for (payload, expected) in cases {
        assert_eq!(payload.to_value(), expected);
    }
}

#[test]
fn the_envelope_holds_its_metadata_beside_the_payload() {
    let envelope = HookEventEnvelope {
        hook_event_name: HookEventName::Stop,
        session_id: "s".into(),
        cwd: "/c".into(),
        workspace_root: "/w".into(),
        timestamp: "now".into(),
        transcript_path: None,
        client_identifier: None,
        prompt_id: Some("p".into()),
        payload: HookPayload::Stop {
            reason: "end_turn".into(),
            usage_by_model: vec![usage("m")],
            usage_incomplete: true,
            is_subagent: true,
        },
    };
    let value = envelope.to_value();
    assert_eq!(value["hookEventName"], "stop");
    assert_eq!(value["sessionId"], "s");
    assert_eq!(value["cwd"], "/c");
    assert_eq!(value["workspaceRoot"], "/w");
    assert_eq!(value["timestamp"], "now");
    assert_eq!(value["promptId"], "p");
    assert!(value.get("transcriptPath").is_none());
    assert_eq!(value["reason"], "end_turn");
    assert_eq!(value["usageByModel"][0]["model"], "m");
    assert_eq!(value["usageIncomplete"], true);
    assert_eq!(value["isSubagent"], true);
}

#[test]
fn members_are_written_in_order() {
    let envelope = HookEventEnvelope {
        hook_event_name: HookEventName::SessionEnd,
        session_id: "s".into(),
        cwd: "/c".into(),
        workspace_root: "/w".into(),
        timestamp: "now".into(),
        transcript_path: Some("/t".into()),
        client_identifier: None,
        prompt_id: Some("p".into()),
        payload: HookPayload::SessionEnd {
            reason: "exit".into(),
            turn_count: Some(2),
            tool_call_count: None,
            tokens_used: Some(3),
            usage_by_model: vec![ModelUsage { model: "m".into(), input_tokens: 4, ..Default::default() }],
            usage_incomplete: true,
            is_subagent: true,
        },
    };
    assert_eq!(
        envelope.to_value().to_string(),
        [
            r#"{"hookEventName":"session_end","sessionId":"s","cwd":"/c","workspaceRoot":"/w","#,
            r#""timestamp":"now","transcriptPath":"/t","promptId":"p","reason":"exit","#,
            r#""turnCount":2,"tokensUsed":3,"usageByModel":[{"model":"m","inputTokens":4,"#,
            r#""outputTokens":0,"modelCalls":0,"apiDurationMs":0}],"#,
            r#""usageIncomplete":true,"isSubagent":true}"#,
        ]
        .concat()
    );
}

#[test]
fn truncation_keeps_the_longest_prefix_that_fits() {
    assert_eq!(truncate_text("x".repeat(MAX_PAYLOAD_SIZE)), None);
    let cut = truncate_text("x".repeat(MAX_PAYLOAD_SIZE + 1)).unwrap();
    assert_eq!(cut, format!("{} [truncated]", "x".repeat(MAX_PAYLOAD_SIZE)));
    // Three bytes each: the last one that fits ends one byte below the limit.
    let cut = truncate_text("€".repeat(MAX_PAYLOAD_SIZE)).unwrap();
    assert_eq!(cut, format!("{} [truncated]", "€".repeat(MAX_PAYLOAD_SIZE / 3)));
    assert!(cut.len() <= MAX_PAYLOAD_SIZE + 12);
}

#[test]
fn a_payload_is_measured_by_its_text() {
    // The two quotes count.
    let fits = Value::String("x".repeat(MAX_PAYLOAD_SIZE - 2));
    assert_eq!(truncate_payload(fits.clone()), (fits, false));
    let (cut, truncated) = truncate_payload(Value::String("x".repeat(MAX_PAYLOAD_SIZE - 1)));
    assert!(truncated);
    assert_eq!(cut, Value::from(format!("\"{} [truncated]", "x".repeat(MAX_PAYLOAD_SIZE - 1))));
}
