//! Hook events: their names, the payloads that hook commands receive on
//! stdin, and how those are put on the wire.

use vstd::prelude::*;
use vstd::string::*;
use vstd::utf8::*;

use crate::json;
use crate::json::{json, json_text, member, members, no_members, with_some, Json, Members};
use crate::text::same;

verus! {

/// Maximum serialized size for `toolInput` or `toolResult` in bytes (128 KB).
pub const MAX_PAYLOAD_SIZE: usize = 131072;

/// Hook event types.
///
/// Read from PascalCase (`"PreToolUse"`) and snake_case (`"pre_tool_use"`)
/// spellings, and from those that other tools use; written in snake_case.
#[derive(Debug, Clone, Copy, PartialEq, Eq, Hash, Structural)]
pub enum HookEventName {
    SessionStart,
    SessionEnd,
    /// Fires when an agent turn ends (completed, cancelled, or error).
    Stop,
    /// Fires when the turn ends due to an API error. Output and exit code are ignored.
    StopFailure,
    PreToolUse,
    PostToolUse,
    /// Fires after a tool call fails (throws an error).
    PostToolUseFailure,
    /// Fires when a tool call is denied by the permission system.
    PermissionDenied,
    /// Fires when the user submits a prompt.
    UserPromptSubmit,
    /// Fires when a notification is sent (e.g., permission prompt, idle).
    Notification,
    /// Fires when a subagent is spawned.
    SubagentStart,
    /// Fires when a subagent completes.
    SubagentStop,
    /// Alias for SubagentStop (kept for backward compatibility).
    SubagentEnd,
    /// Fires before context compaction.
    PreCompact,
    /// Fires after context compaction completes.
    PostCompact,
}

/// The event that a name stands for.
pub open spec fn event_named(s: Seq<char>) -> Option<HookEventName> {
    if s == "SessionStart"@ || s == "session_start"@ || s == "sessionStart"@ {
        Some(HookEventName::SessionStart)
    } else if s == "PreToolUse"@ || s == "pre_tool_use"@ || s == "preToolUse"@ || s
        == "beforeShellExecution"@ || s == "beforeMCPExecution"@ || s == "beforeReadFile"@ {
        Some(HookEventName::PreToolUse)
    } else if s == "PostToolUse"@ || s == "post_tool_use"@ || s == "postToolUse"@ || s
        == "afterShellExecution"@ || s == "afterMCPExecution"@ || s == "afterFileEdit"@ || s
        == "afterAgentResponse"@ || s == "afterAgentThought"@ {
        Some(HookEventName::PostToolUse)
    } else if s == "PostToolUseFailure"@ || s == "post_tool_use_failure"@ || s
        == "postToolUseFailure"@ {
        Some(HookEventName::PostToolUseFailure)
    } else if s == "SessionEnd"@ || s == "session_end"@ || s == "sessionEnd"@ {
        Some(HookEventName::SessionEnd)
    } else if s == "Stop"@ || s == "stop"@ {
        Some(HookEventName::Stop)
    } else if s == "StopFailure"@ || s == "stop_failure"@ || s == "stopFailure"@ {
        Some(HookEventName::StopFailure)
    } else if s == "Notification"@ || s == "notification"@ {
        Some(HookEventName::Notification)
    } else if s == "UserPromptSubmit"@ || s == "user_prompt_submit"@ || s == "beforeSubmitPrompt"@ {
        Some(HookEventName::UserPromptSubmit)
    } else if s == "PermissionDenied"@ || s == "permission_denied"@ || s == "permissionDenied"@ {
        Some(HookEventName::PermissionDenied)
    } else if s == "SubagentStart"@ || s == "subagent_start"@ || s == "subagentStart"@ {
        Some(HookEventName::SubagentStart)
    } else if s == "SubagentStop"@ || s == "subagent_stop"@ || s == "subagentStop"@ {
        Some(HookEventName::SubagentStop)
    } else if s == "SubagentEnd"@ || s == "subagent_end"@ || s == "subagentEnd"@ {
        Some(HookEventName::SubagentEnd)
    } else if s == "PreCompact"@ || s == "pre_compact"@ || s == "preCompact"@ {
        Some(HookEventName::PreCompact)
    } else if s == "PostCompact"@ || s == "post_compact"@ || s == "postCompact"@ {
        Some(HookEventName::PostCompact)
    } else {
        None
    }
}

/// The complaint about a name that stands for no event.
pub open spec fn unknown_event(s: Seq<char>) -> Seq<char> {
    "unknown hook event: '"@ + s
        + "'. Expected one of: SessionStart, PreToolUse, PostToolUse, PostToolUseFailure, SessionEnd, Stop, StopFailure, Notification, UserPromptSubmit, PermissionDenied, SubagentStart, SubagentStop, PreCompact, PostCompact"@
}

impl HookEventName {
    /// The spelling in the hook envelope.
    pub open spec fn wire_spelling(self) -> Seq<char> {
        match self {
            HookEventName::SubagentEnd => "subagent_end"@,
            _ => self.display_spelling(),
        }
    }

    /// The spelling shown to people. The alias collapses.
    pub open spec fn display_spelling(self) -> Seq<char> {
        match self {
            HookEventName::SessionStart => "session_start"@,
            HookEventName::PreToolUse => "pre_tool_use"@,
            HookEventName::PostToolUse => "post_tool_use"@,
            HookEventName::PostToolUseFailure => "post_tool_use_failure"@,
            HookEventName::SessionEnd => "session_end"@,
            HookEventName::Stop => "stop"@,
            HookEventName::StopFailure => "stop_failure"@,
            HookEventName::Notification => "notification"@,
            HookEventName::UserPromptSubmit => "user_prompt_submit"@,
            HookEventName::PermissionDenied => "permission_denied"@,
            HookEventName::SubagentStart => "subagent_start"@,
            HookEventName::SubagentStop => "subagent_stop"@,
            HookEventName::SubagentEnd => "subagent_stop"@,
            HookEventName::PreCompact => "pre_compact"@,
            HookEventName::PostCompact => "post_compact"@,
        }
    }

    /// The canonical form of an event.
    pub open spec fn canonical_spec(self) -> HookEventName {
        if self == HookEventName::SubagentEnd {
            HookEventName::SubagentStop
        } else {
            self
        }
    }

    /// Read an event name, in any of its spellings.
    pub fn from_name(s: &str) -> (r: Result<HookEventName, String>)
        ensures
            match r {
                Ok(event) => event_named(s@) == Some(event),
                Err(message) => event_named(s@) is None && message@ == unknown_event(s@),
            },
    {
        if same(s, "SessionStart") || same(s, "session_start") || same(s, "sessionStart") {
            Ok(HookEventName::SessionStart)
        } else if same(s, "PreToolUse") || same(s, "pre_tool_use") || same(s, "preToolUse") || same(
            s,
            "beforeShellExecution",
        ) || same(s, "beforeMCPExecution") || same(s, "beforeReadFile") {
            Ok(HookEventName::PreToolUse)
        } else if same(s, "PostToolUse") || same(s, "post_tool_use") || same(s, "postToolUse")
            || same(s, "afterShellExecution") || same(s, "afterMCPExecution") || same(
            s,
            "afterFileEdit",
        ) || same(s, "afterAgentResponse") || same(s, "afterAgentThought") {
            Ok(HookEventName::PostToolUse)
        } else if same(s, "PostToolUseFailure") || same(s, "post_tool_use_failure") || same(
            s,
            "postToolUseFailure",
        ) {
            Ok(HookEventName::PostToolUseFailure)
        } else if same(s, "SessionEnd") || same(s, "session_end") || same(s, "sessionEnd") {
            Ok(HookEventName::SessionEnd)
        } else if same(s, "Stop") || same(s, "stop") {
            Ok(HookEventName::Stop)
        } else if same(s, "StopFailure") || same(s, "stop_failure") || same(s, "stopFailure") {
            Ok(HookEventName::StopFailure)
        } else if same(s, "Notification") || same(s, "notification") {
            Ok(HookEventName::Notification)
        } else if same(s, "UserPromptSubmit") || same(s, "user_prompt_submit") || same(
            s,
            "beforeSubmitPrompt",
        ) {
            Ok(HookEventName::UserPromptSubmit)
        } else if same(s, "PermissionDenied") || same(s, "permission_denied") || same(
            s,
            "permissionDenied",
        ) {
            Ok(HookEventName::PermissionDenied)
        } else if same(s, "SubagentStart") || same(s, "subagent_start") || same(
            s,
            "subagentStart",
        ) {
            Ok(HookEventName::SubagentStart)
        } else if same(s, "SubagentStop") || same(s, "subagent_stop") || same(s, "subagentStop") {
            Ok(HookEventName::SubagentStop)
        } else if same(s, "SubagentEnd") || same(s, "subagent_end") || same(s, "subagentEnd") {
            Ok(HookEventName::SubagentEnd)
        } else if same(s, "PreCompact") || same(s, "pre_compact") || same(s, "preCompact") {
            Ok(HookEventName::PreCompact)
        } else if same(s, "PostCompact") || same(s, "post_compact") || same(s, "postCompact") {
            Ok(HookEventName::PostCompact)
        } else {
            let mut message = "unknown hook event: '".to_owned();
            message.append(s);
            message.append(
                "'. Expected one of: SessionStart, PreToolUse, PostToolUse, PostToolUseFailure, SessionEnd, Stop, StopFailure, Notification, UserPromptSubmit, PermissionDenied, SubagentStart, SubagentStop, PreCompact, PostCompact",
            );
            Err(message)
        }
    }

    /// The name shown to people: snake_case, with the alias collapsed.
    pub fn display_name(&self) -> (r: &'static str)
        ensures
            r@ == self.display_spelling(),
    {
        match self {
            HookEventName::SessionStart => "session_start",
            HookEventName::PreToolUse => "pre_tool_use",
            HookEventName::PostToolUse => "post_tool_use",
            HookEventName::PostToolUseFailure => "post_tool_use_failure",
            HookEventName::SessionEnd => "session_end",
            HookEventName::Stop => "stop",
            HookEventName::StopFailure => "stop_failure",
            HookEventName::Notification => "notification",
            HookEventName::UserPromptSubmit => "user_prompt_submit",
            HookEventName::PermissionDenied => "permission_denied",
            HookEventName::SubagentStart => "subagent_start",
            HookEventName::SubagentStop => "subagent_stop",
            HookEventName::SubagentEnd => "subagent_stop",
            HookEventName::PreCompact => "pre_compact",
            HookEventName::PostCompact => "post_compact",
        }
    }

    /// The name in the hook envelope: snake_case.
    pub fn wire_name(&self) -> (r: &'static str)
        ensures
            r@ == self.wire_spelling(),
    {
        match self {
            HookEventName::SubagentEnd => "subagent_end",
            _ => self.display_name(),
        }
    }

    /// Collapse alias variants to their canonical form so a registration and
    /// the fired event meet on one key regardless of which spelling each used.
    pub fn canonical(self) -> (r: Self)
        ensures
            r == self.canonical_spec(),
    {
        match self {
            HookEventName::SubagentEnd => HookEventName::SubagentStop,
            other => other,
        }
    }

    /// Whether this event type uses blocking (deny/allow) semantics.
    pub fn is_blocking(&self) -> (r: bool)
        ensures
            r == (*self == HookEventName::PreToolUse),
    {
        match self {
            HookEventName::PreToolUse => true,
            _ => false,
        }
    }

    /// Whether this event supports no matcher patterns (fires on every occurrence).
    pub fn is_lifecycle(&self) -> (r: bool)
        ensures
            r == (*self == HookEventName::SessionStart || *self == HookEventName::SessionEnd
                || *self == HookEventName::Stop || *self == HookEventName::UserPromptSubmit),
    {
        match self {
            HookEventName::SessionStart
            | HookEventName::SessionEnd
            | HookEventName::Stop
            | HookEventName::UserPromptSubmit => true,
            _ => false,
        }
    }
}

/// One model's share of a bill, as a ledger recorded it. Carried by
/// `SubagentStop`, and by `Stop` and `SessionEnd` for the session's own ledger.
#[derive(Debug, Clone, PartialEq, Eq)]
pub struct ModelUsage {
    /// The model that actually ran.
    pub model: String,
    pub input_tokens: u64,
    /// Tokens the model generated.
    pub output_tokens: u64,
    pub model_calls: u64,
    /// Time inside the API across those calls, the honest denominator for a
    /// generation rate.
    pub api_duration_ms: u64,
}

/// Another name of [`ModelUsage`].
pub type SubagentModelUsage = ModelUsage;

impl Default for ModelUsage {
    fn default() -> (r: Self)
        ensures
            r.model@.len() == 0,
            r.input_tokens == 0,
            r.output_tokens == 0,
            r.model_calls == 0,
            r.api_duration_ms == 0,
    {
        ModelUsage {
            model: String::new(),
            input_tokens: 0,
            output_tokens: 0,
            model_calls: 0,
            api_duration_ms: 0,
        }
    }
}

impl ModelUsage {
    /// What the share is on the wire.
    pub open spec fn as_json(self) -> Json {
        let m0 = with_text(no_members(), "model"@, self.model@);
        let m1 = m0.insert("inputTokens"@, Json::Integer(self.input_tokens as int));
        let m2 = m1.insert("outputTokens"@, Json::Integer(self.output_tokens as int));
        let m3 = m2.insert("modelCalls"@, Json::Integer(self.model_calls as int));
        Json::Object(m3.insert("apiDurationMs"@, Json::Integer(self.api_duration_ms as int)))
    }

    /// The share as a hook command reads it.
    pub fn to_value(&self) -> (r: serde_json::Value)
        ensures
            json(r) == self.as_json(),
    {
        let mut map = json::empty();
        put_text(&mut map, "model", &self.model);
        json::put(&mut map, "inputTokens", json::unsigned(self.input_tokens));
        json::put(&mut map, "outputTokens", json::unsigned(self.output_tokens));
        json::put(&mut map, "modelCalls", json::unsigned(self.model_calls));
        json::put(&mut map, "apiDurationMs", json::unsigned(self.api_duration_ms));
        json::object(map)
    }
}

/// `map` with a string member.
pub open spec fn with_text(map: Members, key: Seq<char>, text: Seq<char>) -> Members {
    map.insert(key, Json::Text(text))
}

pub open spec fn text_of(text: Option<String>) -> Option<Json> {
    match text {
        Some(s) => Some(Json::Text(s@)),
        None => None,
    }
}

pub open spec fn u64_of(n: Option<u64>) -> Option<Json> {
    match n {
        Some(n) => Some(Json::Integer(n as int)),
        None => None,
    }
}

pub open spec fn u32_of(n: Option<u32>) -> Option<Json> {
    match n {
        Some(n) => Some(Json::Integer(n as int)),
        None => None,
    }
}

pub open spec fn i32_of(n: Option<i32>) -> Option<Json> {
    match n {
        Some(n) => Some(Json::Integer(n as int)),
        None => None,
    }
}

/// A flag is on the wire only when it is set.
pub open spec fn flag_of(flag: bool) -> Option<Json> {
    if flag {
        Some(Json::Bool(true))
    } else {
        None
    }
}

/// An empty ledger adds nothing to the wire.
pub open spec fn usage_of(usage: Seq<ModelUsage>) -> Option<Json> {
    if usage.len() == 0 {
        None
    } else {
        Some(Json::Array(usage.map_values(|u: ModelUsage| u.as_json())))
    }
}

fn put_text(map: &mut serde_json::Map<String, serde_json::Value>, key: &str, text: &str)
    ensures
        members(*final(map)) == with_text(members(*old(map)), key@, text@),
{
    json::put(map, key, json::string(text.to_owned()));
}

fn put_optional_text(
    map: &mut serde_json::Map<String, serde_json::Value>,
    key: &str,
    text: &Option<String>,
)
    ensures
        members(*final(map)) == with_some(members(*old(map)), key@, text_of(*text)),
{
    if let Some(s) = text {
        put_text(map, key, s);
    }
}

fn put_optional_u64(
    map: &mut serde_json::Map<String, serde_json::Value>,
    key: &str,
    n: &Option<u64>,
)
    ensures
        members(*final(map)) == with_some(members(*old(map)), key@, u64_of(*n)),
{
    if let Some(n) = n {
        json::put(map, key, json::unsigned(*n));
    }
}

fn put_optional_u32(
    map: &mut serde_json::Map<String, serde_json::Value>,
    key: &str,
    n: &Option<u32>,
)
    ensures
        members(*final(map)) == with_some(members(*old(map)), key@, u32_of(*n)),
{
    if let Some(n) = n {
        json::put(map, key, json::unsigned(*n as u64));
    }
}

fn put_optional_i32(
    map: &mut serde_json::Map<String, serde_json::Value>,
    key: &str,
    n: &Option<i32>,
)
    ensures
        members(*final(map)) == with_some(members(*old(map)), key@, i32_of(*n)),
{
    if let Some(n) = n {
        json::put(map, key, json::signed(*n as i64));
    }
}

fn put_flag(map: &mut serde_json::Map<String, serde_json::Value>, key: &str, flag: bool)
    ensures
        members(*final(map)) == with_some(members(*old(map)), key@, flag_of(flag)),
{
    if flag {
        json::put(map, key, json::boolean(true));
    }
}

fn put_usage(
    map: &mut serde_json::Map<String, serde_json::Value>,
    key: &str,
    usage: &Vec<ModelUsage>,
)
    ensures
        members(*final(map)) == with_some(members(*old(map)), key@, usage_of(usage@)),
{
    if usage.len() == 0 {
        return;
    }
    let mut items: Vec<serde_json::Value> = Vec::new();
    let mut i: usize = 0;
    while i < usage.len()
        invariant
            i <= usage@.len(),
            items@.len() == i,
            forall|k: int| 0 <= k < i ==> json(#[trigger] items@[k]) == usage@[k].as_json(),
        decreases usage@.len() - i,
    {
        items.push(usage[i].to_value());
        i += 1;
    }
    assert(json::elements(items@) =~= usage@.map_values(|u: ModelUsage| u.as_json()));
    json::put(map, key, json::array(items));
}

/// Event-specific payload variants. Their members stand beside those of the
/// envelope.
#[allow(inconsistent_fields)]
#[derive(Debug, Clone)]
pub enum HookPayload {
    SessionStart {
        source: String,
        model_id: Option<String>,
        agent_type: Option<String>,
    },
    SessionEnd {
        reason: String,
        turn_count: Option<u64>,
        tool_call_count: Option<u64>,
        /// The session's final context size, not what it generated. Use
        /// `usage_by_model` for a rate.
        tokens_used: Option<u64>,
        /// What ran and what it generated, per model, from the session's own
        /// ledger. Empty when the session made no model call, or when its ledger
        /// could not be read; `usage_incomplete` tells those apart.
        usage_by_model: Vec<ModelUsage>,
        /// The session's bill under-counts, or could not be read at all.
        /// Present on the wire only when true.
        usage_incomplete: bool,
        /// True when this session is itself a subagent, which also emits
        /// `SubagentStop`. Both events describe the same run, so a consumer that
        /// books both double-counts it.
        is_subagent: bool,
    },
    Stop {
        reason: String,
        /// What this turn spent, per model, not the session total. Empty on the
        /// teardown `Stop`s that fire when a session closes.
        usage_by_model: Vec<ModelUsage>,
        /// The turn's bill under-counts, or its ledger could not be read.
        /// Present on the wire only when true.
        usage_incomplete: bool,
        /// True when the turn belongs to a subagent session.
        is_subagent: bool,
    },
    StopFailure {
        error: String,
    },
    PreToolUse {
        /// The tool the model invoked; for a meta-dispatch tool, the resolved
        /// underlying tool.
        tool_name: String,
        tool_use_id: String,
        tool_input: serde_json::Value,
        tool_input_truncated: bool,
        permission_mode: Option<String>,
        /// The subagent's type when this tool runs inside one; `None` for the
        /// top-level session.
        subagent_type: Option<String>,
    },
    PostToolUse {
        tool_name: String,
        tool_use_id: String,
        tool_input: serde_json::Value,
        tool_result: serde_json::Value,
        tool_input_truncated: bool,
        tool_result_truncated: bool,
        duration_ms: Option<u64>,
        is_backgrounded: bool,
        subagent_type: Option<String>,
    },
    PostToolUseFailure {
        tool_name: String,
        tool_use_id: String,
        tool_input: serde_json::Value,
        tool_input_truncated: bool,
        error: String,
        subagent_type: Option<String>,
    },
    PermissionDenied {
        tool_name: String,
        tool_use_id: String,
        tool_input: serde_json::Value,
        tool_input_truncated: bool,
    },
    /// Fires when the user submits a prompt.
    UserPromptSubmit {
        prompt: Option<String>,
    },
    /// Fires on agent notifications (permission prompts, idle, etc.).
    Notification {
        notification_type: String,
        message: Option<String>,
        title: Option<String>,
        /// Some callers use `level` instead of `notificationType`.
        level: Option<String>,
    },
    /// Fires when a subagent is spawned.
    SubagentStart {
        subagent_id: String,
        subagent_type: String,
        description: Option<String>,
    },
    /// Fires when a subagent completes.
    SubagentStop {
        subagent_id: String,
        subagent_type: String,
        description: Option<String>,
        exit_code: Option<i32>,
        duration_ms: Option<u64>,
        /// The child's final context size, not what it generated.
        tokens_used: Option<u64>,
        tool_calls: Option<u32>,
        turns: Option<u32>,
        /// What ran, and what it generated, per model: the child's own billing
        /// totals.
        usage_by_model: Vec<ModelUsage>,
        /// The child's bill under-counts. Present on the wire only when true.
        usage_incomplete: bool,
        /// Why it failed. `exit_code` says only that it did.
        error: Option<String>,
    },
    PreCompact {
        /// "manual" or "auto".
        source: String,
    },
    PostCompact {
        /// "manual" or "auto".
        source: String,
    },
}

impl HookPayload {
    /// `map` with the members of the payload put into it, one after the other.
    pub open spec fn onto(self, map: Members) -> Members {
        match self {
            HookPayload::SessionStart { source, model_id, agent_type } => {
                let m0 = with_text(map, "source"@, source@);
                let m1 = with_some(m0, "modelId"@, text_of(model_id));
                with_some(m1, "agentType"@, text_of(agent_type))
            },
            HookPayload::SessionEnd { reason, turn_count, tool_call_count, tokens_used, usage_by_model, usage_incomplete, is_subagent } => {
                let m0 = with_text(map, "reason"@, reason@);
                let m1 = with_some(m0, "turnCount"@, u64_of(turn_count));
                let m2 = with_some(m1, "toolCallCount"@, u64_of(tool_call_count));
                let m3 = with_some(m2, "tokensUsed"@, u64_of(tokens_used));
                let m4 = with_some(m3, "usageByModel"@, usage_of(usage_by_model@));
                let m5 = with_some(m4, "usageIncomplete"@, flag_of(usage_incomplete));
                with_some(m5, "isSubagent"@, flag_of(is_subagent))
            },
            HookPayload::Stop { reason, usage_by_model, usage_incomplete, is_subagent } => {
                let m0 = with_text(map, "reason"@, reason@);
                let m1 = with_some(m0, "usageByModel"@, usage_of(usage_by_model@));
                let m2 = with_some(m1, "usageIncomplete"@, flag_of(usage_incomplete));
                with_some(m2, "isSubagent"@, flag_of(is_subagent))
            },
            HookPayload::StopFailure { error } => {
                with_text(map, "error"@, error@)
            },
            HookPayload::PreToolUse { tool_name, tool_use_id, tool_input, tool_input_truncated, permission_mode, subagent_type } => {
                let m0 = with_text(map, "toolName"@, tool_name@);
                let m1 = with_text(m0, "toolUseId"@, tool_use_id@);
                let m2 = m1.insert("toolInput"@, json(tool_input));
                let m3 = m2.insert("toolInputTruncated"@, Json::Bool(tool_input_truncated));
                let m4 = with_some(m3, "permissionMode"@, text_of(permission_mode));
                with_some(m4, "subagentType"@, text_of(subagent_type))
            },
            HookPayload::PostToolUse { tool_name, tool_use_id, tool_input, tool_result, tool_input_truncated, tool_result_truncated, duration_ms, is_backgrounded, subagent_type } => {
                let m0 = with_text(map, "toolName"@, tool_name@);
                let m1 = with_text(m0, "toolUseId"@, tool_use_id@);
                let m2 = m1.insert("toolInput"@, json(tool_input));
                let m3 = m2.insert("toolResult"@, json(tool_result));
                let m4 = m3.insert("toolInputTruncated"@, Json::Bool(tool_input_truncated));
                let m5 = m4.insert("toolResultTruncated"@, Json::Bool(tool_result_truncated));
                let m6 = with_some(m5, "durationMs"@, u64_of(duration_ms));
                let m7 = m6.insert("isBackgrounded"@, Json::Bool(is_backgrounded));
                with_some(m7, "subagentType"@, text_of(subagent_type))
            },
            HookPayload::PostToolUseFailure { tool_name, tool_use_id, tool_input, tool_input_truncated, error, subagent_type } => {
                let m0 = with_text(map, "toolName"@, tool_name@);
                let m1 = with_text(m0, "toolUseId"@, tool_use_id@);
                let m2 = m1.insert("toolInput"@, json(tool_input));
                let m3 = m2.insert("toolInputTruncated"@, Json::Bool(tool_input_truncated));
                let m4 = with_text(m3, "error"@, error@);
                with_some(m4, "subagentType"@, text_of(subagent_type))
            },
            HookPayload::PermissionDenied { tool_name, tool_use_id, tool_input, tool_input_truncated } => {
                let m0 = with_text(map, "toolName"@, tool_name@);
                let m1 = with_text(m0, "toolUseId"@, tool_use_id@);
                let m2 = m1.insert("toolInput"@, json(tool_input));
                m2.insert("toolInputTruncated"@, Json::Bool(tool_input_truncated))
            },
            HookPayload::UserPromptSubmit { prompt } => {
                with_some(map, "prompt"@, text_of(prompt))
            },
            HookPayload::Notification { notification_type, message, title, level } => {
                let m0 = with_text(map, "notificationType"@, notification_type@);
                let m1 = with_some(m0, "message"@, text_of(message));
                let m2 = with_some(m1, "title"@, text_of(title));
                with_some(m2, "level"@, text_of(level))
            },
            HookPayload::SubagentStart { subagent_id, subagent_type, description } => {
                let m0 = with_text(map, "subagentId"@, subagent_id@);
                let m1 = with_text(m0, "subagentType"@, subagent_type@);
                with_some(m1, "description"@, text_of(description))
            },
            HookPayload::SubagentStop { subagent_id, subagent_type, description, exit_code, duration_ms, tokens_used, tool_calls, turns, usage_by_model, usage_incomplete, error } => {
                let m0 = with_text(map, "subagentId"@, subagent_id@);
                let m1 = with_text(m0, "subagentType"@, subagent_type@);
                let m2 = with_some(m1, "description"@, text_of(description));
                let m3 = with_some(m2, "exitCode"@, i32_of(exit_code));
                let m4 = with_some(m3, "durationMs"@, u64_of(duration_ms));
                let m5 = with_some(m4, "tokensUsed"@, u64_of(tokens_used));
                let m6 = with_some(m5, "toolCalls"@, u32_of(tool_calls));
                let m7 = with_some(m6, "turns"@, u32_of(turns));
                let m8 = with_some(m7, "usageByModel"@, usage_of(usage_by_model@));
                let m9 = with_some(m8, "usageIncomplete"@, flag_of(usage_incomplete));
                with_some(m9, "error"@, text_of(error))
            },
            HookPayload::PreCompact { source } => {
                with_text(map, "source"@, source@)
            },
            HookPayload::PostCompact { source } => {
                with_text(map, "source"@, source@)
            },
        }
    }

    /// What the payload is on the wire.
    pub open spec fn as_json(self) -> Json {
        Json::Object(self.onto(no_members()))
    }

    fn add_to(&self, map: &mut serde_json::Map<String, serde_json::Value>)
        ensures
            members(*final(map)) == self.onto(members(*old(map))),
    {
        match self {
            HookPayload::SessionStart { source, model_id, agent_type } => {
                put_text(map, "source", source);
                put_optional_text(map, "modelId", model_id);
                put_optional_text(map, "agentType", agent_type);
            },
            HookPayload::SessionEnd { reason, turn_count, tool_call_count, tokens_used, usage_by_model, usage_incomplete, is_subagent } => {
                put_text(map, "reason", reason);
                put_optional_u64(map, "turnCount", turn_count);
                put_optional_u64(map, "toolCallCount", tool_call_count);
                put_optional_u64(map, "tokensUsed", tokens_used);
                put_usage(map, "usageByModel", usage_by_model);
                put_flag(map, "usageIncomplete", *usage_incomplete);
                put_flag(map, "isSubagent", *is_subagent);
            },
            HookPayload::Stop { reason, usage_by_model, usage_incomplete, is_subagent } => {
                put_text(map, "reason", reason);
                put_usage(map, "usageByModel", usage_by_model);
                put_flag(map, "usageIncomplete", *usage_incomplete);
                put_flag(map, "isSubagent", *is_subagent);
            },
            HookPayload::StopFailure { error } => {
                put_text(map, "error", error);
            },
            HookPayload::PreToolUse { tool_name, tool_use_id, tool_input, tool_input_truncated, permission_mode, subagent_type } => {
                put_text(map, "toolName", tool_name);
                put_text(map, "toolUseId", tool_use_id);
                json::put(map, "toolInput", tool_input.clone());
                json::put(map, "toolInputTruncated", json::boolean(*tool_input_truncated));
                put_optional_text(map, "permissionMode", permission_mode);
                put_optional_text(map, "subagentType", subagent_type);
            },
            HookPayload::PostToolUse { tool_name, tool_use_id, tool_input, tool_result, tool_input_truncated, tool_result_truncated, duration_ms, is_backgrounded, subagent_type } => {
                put_text(map, "toolName", tool_name);
                put_text(map, "toolUseId", tool_use_id);
                json::put(map, "toolInput", tool_input.clone());
                json::put(map, "toolResult", tool_result.clone());
                json::put(map, "toolInputTruncated", json::boolean(*tool_input_truncated));
                json::put(map, "toolResultTruncated", json::boolean(*tool_result_truncated));
                put_optional_u64(map, "durationMs", duration_ms);
                json::put(map, "isBackgrounded", json::boolean(*is_backgrounded));
                put_optional_text(map, "subagentType", subagent_type);
            },
            HookPayload::PostToolUseFailure { tool_name, tool_use_id, tool_input, tool_input_truncated, error, subagent_type } => {
                put_text(map, "toolName", tool_name);
                put_text(map, "toolUseId", tool_use_id);
                json::put(map, "toolInput", tool_input.clone());
                json::put(map, "toolInputTruncated", json::boolean(*tool_input_truncated));
                put_text(map, "error", error);
                put_optional_text(map, "subagentType", subagent_type);
            },
            HookPayload::PermissionDenied { tool_name, tool_use_id, tool_input, tool_input_truncated } => {
                put_text(map, "toolName", tool_name);
                put_text(map, "toolUseId", tool_use_id);
                json::put(map, "toolInput", tool_input.clone());
                json::put(map, "toolInputTruncated", json::boolean(*tool_input_truncated));
            },
            HookPayload::UserPromptSubmit { prompt } => {
                put_optional_text(map, "prompt", prompt);
            },
            HookPayload::Notification { notification_type, message, title, level } => {
                put_text(map, "notificationType", notification_type);
                put_optional_text(map, "message", message);
                put_optional_text(map, "title", title);
                put_optional_text(map, "level", level);
            },
            HookPayload::SubagentStart { subagent_id, subagent_type, description } => {
                put_text(map, "subagentId", subagent_id);
                put_text(map, "subagentType", subagent_type);
                put_optional_text(map, "description", description);
            },
            HookPayload::SubagentStop { subagent_id, subagent_type, description, exit_code, duration_ms, tokens_used, tool_calls, turns, usage_by_model, usage_incomplete, error } => {
                put_text(map, "subagentId", subagent_id);
                put_text(map, "subagentType", subagent_type);
                put_optional_text(map, "description", description);
                put_optional_i32(map, "exitCode", exit_code);
                put_optional_u64(map, "durationMs", duration_ms);
                put_optional_u64(map, "tokensUsed", tokens_used);
                put_optional_u32(map, "toolCalls", tool_calls);
                put_optional_u32(map, "turns", turns);
                put_usage(map, "usageByModel", usage_by_model);
                put_flag(map, "usageIncomplete", *usage_incomplete);
                put_optional_text(map, "error", error);
            },
            HookPayload::PreCompact { source } => {
                put_text(map, "source", source);
            },
            HookPayload::PostCompact { source } => {
                put_text(map, "source", source);
            },
        }
    }

    /// The payload as a hook command reads it.
    pub fn to_value(&self) -> (r: serde_json::Value)
        ensures
            json(r) == self.as_json(),
    {
        let mut map = json::empty();
        self.add_to(&mut map);
        json::object(map)
    }
}

/// The normalized event envelope sent to hook commands on stdin as JSON:
/// common metadata plus an event-specific payload.
#[derive(Debug, Clone)]
pub struct HookEventEnvelope {
    pub hook_event_name: HookEventName,
    pub session_id: String,
    pub cwd: String,
    pub workspace_root: String,
    pub timestamp: String,
    pub transcript_path: Option<String>,
    pub client_identifier: Option<String>,
    pub prompt_id: Option<String>,
    pub payload: HookPayload,
}

impl HookEventEnvelope {
    /// The members of the envelope itself.
    pub open spec fn metadata(self) -> Members {
        let m0 = with_text(no_members(), "hookEventName"@, self.hook_event_name.wire_spelling());
        let m1 = with_text(m0, "sessionId"@, self.session_id@);
        let m2 = with_text(m1, "cwd"@, self.cwd@);
        let m3 = with_text(m2, "workspaceRoot"@, self.workspace_root@);
        let m4 = with_text(m3, "timestamp"@, self.timestamp@);
        let m5 = with_some(m4, "transcriptPath"@, text_of(self.transcript_path));
        let m6 = with_some(m5, "clientIdentifier"@, text_of(self.client_identifier));
        with_some(m6, "promptId"@, text_of(self.prompt_id))
    }

    /// What the envelope is on the wire: its own members and those of the
    /// payload, side by side.
    pub open spec fn as_json(self) -> Json {
        Json::Object(self.payload.onto(self.metadata()))
    }

    /// The envelope as a hook command reads it.
    pub fn to_value(&self) -> (r: serde_json::Value)
        ensures
            json(r) == self.as_json(),
    {
        let mut map = json::empty();
        put_text(&mut map, "hookEventName", self.hook_event_name.wire_name());
        put_text(&mut map, "sessionId", &self.session_id);
        put_text(&mut map, "cwd", &self.cwd);
        put_text(&mut map, "workspaceRoot", &self.workspace_root);
        put_text(&mut map, "timestamp", &self.timestamp);
        put_optional_text(&mut map, "transcriptPath", &self.transcript_path);
        put_optional_text(&mut map, "clientIdentifier", &self.client_identifier);
        put_optional_text(&mut map, "promptId", &self.prompt_id);
        self.payload.add_to(&mut map);
        json::object(map)
    }
}

/// `cut` is the longest run of whole characters at the start of `text` whose
/// UTF-8 form has at most `max` bytes.
pub open spec fn longest_fit(text: Seq<char>, cut: Seq<char>, max: nat) -> bool {
    &&& cut.len() <= text.len()
    &&& cut == text.take(cut.len() as int)
    &&& encode_utf8(cut).len() <= max
    &&& cut.len() < text.len() ==> encode_utf8(text.take(cut.len() as int + 1)).len() > max
}

/// Truncate a JSON value if its serialized size exceeds [`MAX_PAYLOAD_SIZE`].
///
/// Returns the value and whether it was truncated. A truncated value is the
/// string of the start of its text, cut between characters, and a marker.
pub fn truncate_payload(value: serde_json::Value) -> (r: (serde_json::Value, bool))
    ensures
        r.1 == (encode_utf8(json_text(value)).len() > MAX_PAYLOAD_SIZE),
        !r.1 ==> r.0 == value,
        r.1 ==> exists|cut: Seq<char>|
            {
                &&& #[trigger] longest_fit(json_text(value), cut, MAX_PAYLOAD_SIZE as nat)
                &&& json(r.0) == Json::Text(cut + " [truncated]"@)
            },
{
    let serialized = json::text_of(&value);
    match truncate_text(serialized) {
        None => (value, false),
        Some(cut) => (json::string(cut), true),
    }
}

/// The start of a text that is longer than [`MAX_PAYLOAD_SIZE`] bytes, cut
/// between characters, and a marker; or `None` where the text is short enough.
pub fn truncate_text(serialized: String) -> (r: Option<String>)
    ensures
        match r {
            None => encode_utf8(serialized@).len() <= MAX_PAYLOAD_SIZE,
            Some(short) => {
                &&& encode_utf8(serialized@).len() > MAX_PAYLOAD_SIZE
                &&& exists|cut: Seq<char>|
                    {
                        &&& #[trigger] longest_fit(serialized@, cut, MAX_PAYLOAD_SIZE as nat)
                        &&& short@ == cut + " [truncated]"@
                    }
            },
        },
{
    let text = serialized.as_str();
    let bytes = text.as_bytes();
    if bytes.len() <= MAX_PAYLOAD_SIZE {
        return None;
    }
    let ghost all = encode_utf8(serialized@);
    proof {
        encode_utf8_valid_utf8(serialized@);
        is_char_boundary_start_end_of_seq(all);
    }
    // The largest character boundary that is not beyond the limit.
    let mut end: usize = MAX_PAYLOAD_SIZE;
    while !text.is_char_boundary(end)
        invariant
            text@ == serialized@,
            all == encode_utf8(serialized@),
            all.len() > MAX_PAYLOAD_SIZE,
            end <= MAX_PAYLOAD_SIZE,
            is_char_boundary(all, 0),
            forall|i: int| end < i <= MAX_PAYLOAD_SIZE ==> !is_char_boundary(all, i),
        decreases end,
    {
        end -= 1;
    }
    let (front, back) = text.split_at(end);
    let mut out = front.to_owned();
    out.append(" [truncated]");
    proof {
        lemma_split(serialized@, front@, back@, end as int);
        let n = front@.len() as int;
        if n < serialized@.len() {
            lemma_prefix_is_boundary(serialized@, n + 1);
            lemma_prefix_grows(serialized@, n);
            assert(serialized@.take(n) =~= front@);
        }
        assert(longest_fit(serialized@, front@, MAX_PAYLOAD_SIZE as nat));
    }
    Some(out)
}

proof fn lemma_split(text: Seq<char>, front: Seq<char>, back: Seq<char>, end: int)
    requires
        0 <= end <= encode_utf8(text).len(),
        is_char_boundary(encode_utf8(text), end),
        encode_utf8(front) == encode_utf8(text).subrange(0, end),
        encode_utf8(back) == encode_utf8(text).subrange(end, encode_utf8(text).len() as int),
    ensures
        text == front + back,
        front == text.take(front.len() as int),
{
    let all = encode_utf8(text);
    encode_utf8_valid_utf8(text);
    decode_utf8_split(all, end);
    encode_utf8_decode_utf8(text);
    encode_utf8_decode_utf8(front);
    encode_utf8_decode_utf8(back);
    assert(front =~= text.take(front.len() as int));
}

pub(crate) proof fn lemma_encode_concat(a: Seq<char>, b: Seq<char>)
    ensures
        encode_utf8(a + b) == encode_utf8(a) + encode_utf8(b),
    decreases a.len(),
{
    if a.len() == 0 {
        assert(a + b =~= b);
        assert(encode_utf8(a) + encode_utf8(b) =~= encode_utf8(b));
    } else {
        lemma_encode_concat(a.drop_first(), b);
        assert((a + b).drop_first() =~= a.drop_first() + b);
        assert((a + b)[0] == a[0]);
        assert(encode_utf8(a + b) =~= encode_utf8(a) + encode_utf8(b));
    }
}

/// The UTF-8 form of a prefix ends at a character boundary of the whole.
proof fn lemma_prefix_is_boundary(text: Seq<char>, n: int)
    requires
        0 <= n <= text.len(),
    ensures
        is_char_boundary(encode_utf8(text), encode_utf8(text.take(n)).len() as int),
{
    let front = text.take(n);
    let back = text.skip(n);
    assert(text =~= front + back);
    lemma_encode_concat(front, back);
    let all = encode_utf8(text);
    encode_utf8_valid_utf8(text);
    encode_utf8_valid_utf8(front);
    encode_utf8_valid_utf8(back);
    let at = encode_utf8(front).len() as int;
    if at == all.len() {
        is_char_boundary_start_end_of_seq(all);
    } else {
        is_char_boundary_iff_not_is_continuation_byte(all, at);
        is_char_boundary_start_end_of_seq(encode_utf8(back));
        is_char_boundary_iff_not_is_continuation_byte(encode_utf8(back), 0);
        assert(all[at] == encode_utf8(back)[0]);
    }
}

/// One more character makes a longer encoding.
proof fn lemma_prefix_grows(text: Seq<char>, n: int)
    requires
        0 <= n < text.len(),
    ensures
        encode_utf8(text.take(n)).len() < encode_utf8(text.take(n + 1)).len(),
{
    let one = seq![text[n]];
    assert(text.take(n + 1) =~= text.take(n) + one);
    lemma_encode_concat(text.take(n), one);
    assert(encode_utf8(one).len() > 0) by {
        assert(one.len() > 0);
        reveal_with_fuel(encode_utf8, 2);
    }
}

/// Every event reads back from its name in the envelope.
pub proof fn wire_name_reads_back(event: HookEventName)
    ensures
        event_named(event.wire_spelling()) == Some(event),
{
    lemma_names();
}

/// Every event reads back from the name shown to people as its canonical form.
pub proof fn display_name_reads_back_as_canonical(event: HookEventName)
    ensures
        event_named(event.display_spelling()) == Some(event.canonical_spec()),
{
    wire_name_reads_back(event.canonical_spec());
}

/// Canonical forms are their own canonical forms, and show as the event does,
/// so a registration and a fired event meet on one key.
pub proof fn canonical_is_stable(event: HookEventName)
    ensures
        event.canonical_spec().canonical_spec() == event.canonical_spec(),
        event.canonical_spec().display_spelling() == event.display_spelling(),
        event.canonical_spec().wire_spelling() == event.display_spelling(),
{
}

/// Two events with the same name in the envelope are the same event.
pub proof fn wire_names_are_distinct(a: HookEventName, b: HookEventName)
    requires
        a.wire_spelling() == b.wire_spelling(),
    ensures
        a == b,
{
    wire_name_reads_back(a);
    wire_name_reads_back(b);
}

/// A ledger member of a payload that reports usage: present if and only if
/// there is something to report; and a caveat, present if and only if the
/// bill is incomplete. An empty ledger without the caveat says that nothing
/// was spent.
pub proof fn usage_is_omitted_only_when_empty(payload: HookPayload)
    ensures
        match payload {
            HookPayload::SessionEnd { usage_by_model, usage_incomplete, is_subagent, .. } => {
                &&& member(payload.as_json(), "usageByModel"@) == usage_of(usage_by_model@)
                &&& member(payload.as_json(), "usageIncomplete"@) == flag_of(usage_incomplete)
                &&& member(payload.as_json(), "isSubagent"@) == flag_of(is_subagent)
            },
            HookPayload::Stop { usage_by_model, usage_incomplete, is_subagent, .. } => {
                &&& member(payload.as_json(), "usageByModel"@) == usage_of(usage_by_model@)
                &&& member(payload.as_json(), "usageIncomplete"@) == flag_of(usage_incomplete)
                &&& member(payload.as_json(), "isSubagent"@) == flag_of(is_subagent)
            },
            HookPayload::SubagentStop { usage_by_model, usage_incomplete, .. } => {
                &&& member(payload.as_json(), "usageByModel"@) == usage_of(usage_by_model@)
                &&& member(payload.as_json(), "usageIncomplete"@) == flag_of(usage_incomplete)
            },
            _ => {
                &&& member(payload.as_json(), "usageByModel"@) is None
                &&& member(payload.as_json(), "usageIncomplete"@) is None
            },
        },
{
    lemma_keys();
}

/// A turn's `Stop` never carries the session-scoped context size.
pub proof fn stop_carries_no_context_size(payload: HookPayload)
    requires
        payload is Stop,
    ensures
        member(payload.as_json(), "tokensUsed"@) is None,
{
    lemma_keys();
}

/// A model's share never carries a cost.
pub proof fn usage_carries_no_cost(usage: ModelUsage)
    ensures
        member(usage.as_json(), "costUsdTicks"@) is None,
        member(usage.as_json(), "cost_usd_ticks"@) is None,
{
    lemma_keys();
}

/// The members of envelope and payload stand side by side: neither hides one
/// of the other.
pub proof fn envelope_keeps_metadata_and_payload(envelope: HookEventEnvelope, key: Seq<char>)
    ensures
        member(envelope.as_json(), key) == match member(envelope.payload.as_json(), key) {
            Some(value) => Some(value),
            None => member(Json::Object(envelope.metadata()), key),
        },
        member(Json::Object(envelope.metadata()), key) is None || member(
            envelope.payload.as_json(),
            key,
        ) is None,
{
    lemma_onto(envelope.payload, envelope.metadata(), key);
    if member(Json::Object(envelope.metadata()), key) is Some {
        assert(metadata_key(key));
        lemma_payload_has_no_metadata(envelope.payload, key);
    }
}

/// The members of the envelope itself come first, in their order, and those of
/// the payload follow in theirs.
pub proof fn envelope_comes_first(envelope: HookEventEnvelope)
    ensures
        ({
            let own = envelope.payload.onto(no_members());
            &&& envelope.as_json() matches Json::Object(whole)
            &&& whole.keys == envelope.metadata().keys + own.keys
        }),
{
    let base = envelope.metadata();
    assert(base.keys + no_members().keys =~= base.keys);
    lemma_onto_follows(envelope.payload, base);
}

/// `whole` is `base`, and after it the members of `own`.
#[verifier::opaque]
spec fn follows(base: Members, own: Members, whole: Members) -> bool {
    &&& whole.keys == base.keys + own.keys
    &&& forall|key: Seq<char>|
        !base.values.dom().contains(key) ==> whole.values.dom().contains(key)
            == #[trigger] own.values.dom().contains(key)
}

proof fn lemma_onto_follows(payload: HookPayload, base: Members)
    requires
        base.keys + no_members().keys == base.keys,
        forall|key: Seq<char>| #[trigger] base.values.dom().contains(key) ==> metadata_key(key),
    ensures
        payload.onto(base).keys == base.keys + payload.onto(no_members()).keys,
{
    lemma_keys();
    assert(follows(base, no_members(), base)) by {
        reveal(follows);
    }
    assert forall|own: Members, whole: Members, key: Seq<char>, value: Json|
        follows(base, own, whole) && !metadata_key(key) implies #[trigger] follows(
        base,
        own.insert(key, value),
        whole.insert(key, value),
    ) by {
        reveal(follows);
        assert(!base.values.dom().contains(key));
        assert(base.keys + own.keys.push(key) =~= (base.keys + own.keys).push(key));
    }
    assert(follows(base, payload.onto(no_members()), payload.onto(base)));
    reveal(follows);
}

/// What stands under the key of a ledger: nothing where the ledger is empty,
/// and else each model's share, in order.
pub open spec fn lists_usage(value: Option<Json>, usage: Seq<ModelUsage>) -> bool {
    if usage.len() == 0 {
        value is None
    } else {
        &&& value matches Some(Json::Array(items))
        &&& items.len() == usage.len()
        &&& forall|i: int| 0 <= i < items.len() ==> #[trigger] items[i] == usage[i].as_json()
    }
}

/// Each field of a payload stands on the wire under its own key, and an optional
/// one only where it is there.
#[verifier::rlimit(100)]
pub proof fn a_field_stands_under_its_key(payload: HookPayload)
    ensures
        match payload {
            HookPayload::SessionStart { source, model_id, agent_type } => {
                &&& member(payload.as_json(), "source"@) == Some(Json::Text(source@))
                &&& member(payload.as_json(), "modelId"@) == match model_id {
                    Some(text) => Some(Json::Text(text@)),
                    None => None,
                }
                &&& member(payload.as_json(), "agentType"@) == match agent_type {
                    Some(text) => Some(Json::Text(text@)),
                    None => None,
                }
            },
            HookPayload::SessionEnd { reason, turn_count, tool_call_count, tokens_used, usage_by_model, usage_incomplete, is_subagent } => {
                &&& member(payload.as_json(), "reason"@) == Some(Json::Text(reason@))
                &&& member(payload.as_json(), "turnCount"@) == match turn_count {
                    Some(n) => Some(Json::Integer(n as int)),
                    None => None,
                }
                &&& member(payload.as_json(), "toolCallCount"@) == match tool_call_count {
                    Some(n) => Some(Json::Integer(n as int)),
                    None => None,
                }
                &&& member(payload.as_json(), "tokensUsed"@) == match tokens_used {
                    Some(n) => Some(Json::Integer(n as int)),
                    None => None,
                }
                &&& lists_usage(member(payload.as_json(), "usageByModel"@), usage_by_model@)
                &&& member(payload.as_json(), "usageIncomplete"@) == if usage_incomplete {
                    Some(Json::Bool(true))
                } else {
                    None
                }
                &&& member(payload.as_json(), "isSubagent"@) == if is_subagent {
                    Some(Json::Bool(true))
                } else {
                    None
                }
            },
            HookPayload::Stop { reason, usage_by_model, usage_incomplete, is_subagent } => {
                &&& member(payload.as_json(), "reason"@) == Some(Json::Text(reason@))
                &&& lists_usage(member(payload.as_json(), "usageByModel"@), usage_by_model@)
                &&& member(payload.as_json(), "usageIncomplete"@) == if usage_incomplete {
                    Some(Json::Bool(true))
                } else {
                    None
                }
                &&& member(payload.as_json(), "isSubagent"@) == if is_subagent {
                    Some(Json::Bool(true))
                } else {
                    None
                }
            },
            HookPayload::StopFailure { error } => {
                &&& member(payload.as_json(), "error"@) == Some(Json::Text(error@))
            },
            HookPayload::PreToolUse { tool_name, tool_use_id, tool_input, tool_input_truncated, permission_mode, subagent_type } => {
                &&& member(payload.as_json(), "toolName"@) == Some(Json::Text(tool_name@))
                &&& member(payload.as_json(), "toolUseId"@) == Some(Json::Text(tool_use_id@))
                &&& member(payload.as_json(), "toolInput"@) == Some(json(tool_input))
                &&& member(payload.as_json(), "toolInputTruncated"@) == Some(Json::Bool(tool_input_truncated))
                &&& member(payload.as_json(), "permissionMode"@) == match permission_mode {
                    Some(text) => Some(Json::Text(text@)),
                    None => None,
                }
                &&& member(payload.as_json(), "subagentType"@) == match subagent_type {
                    Some(text) => Some(Json::Text(text@)),
                    None => None,
                }
            },
            HookPayload::PostToolUse { tool_name, tool_use_id, tool_input, tool_result, tool_input_truncated, tool_result_truncated, duration_ms, is_backgrounded, subagent_type } => {
                &&& member(payload.as_json(), "toolName"@) == Some(Json::Text(tool_name@))
                &&& member(payload.as_json(), "toolUseId"@) == Some(Json::Text(tool_use_id@))
                &&& member(payload.as_json(), "toolInput"@) == Some(json(tool_input))
                &&& member(payload.as_json(), "toolResult"@) == Some(json(tool_result))
                &&& member(payload.as_json(), "toolInputTruncated"@) == Some(Json::Bool(tool_input_truncated))
                &&& member(payload.as_json(), "toolResultTruncated"@) == Some(Json::Bool(tool_result_truncated))
                &&& member(payload.as_json(), "durationMs"@) == match duration_ms {
                    Some(n) => Some(Json::Integer(n as int)),
                    None => None,
                }
                &&& member(payload.as_json(), "isBackgrounded"@) == Some(Json::Bool(is_backgrounded))
                &&& member(payload.as_json(), "subagentType"@) == match subagent_type {
                    Some(text) => Some(Json::Text(text@)),
                    None => None,
                }
            },
            HookPayload::PostToolUseFailure { tool_name, tool_use_id, tool_input, tool_input_truncated, error, subagent_type } => {
                &&& member(payload.as_json(), "toolName"@) == Some(Json::Text(tool_name@))
                &&& member(payload.as_json(), "toolUseId"@) == Some(Json::Text(tool_use_id@))
                &&& member(payload.as_json(), "toolInput"@) == Some(json(tool_input))
                &&& member(payload.as_json(), "toolInputTruncated"@) == Some(Json::Bool(tool_input_truncated))
                &&& member(payload.as_json(), "error"@) == Some(Json::Text(error@))
                &&& member(payload.as_json(), "subagentType"@) == match subagent_type {
                    Some(text) => Some(Json::Text(text@)),
                    None => None,
                }
            },
            HookPayload::PermissionDenied { tool_name, tool_use_id, tool_input, tool_input_truncated } => {
                &&& member(payload.as_json(), "toolName"@) == Some(Json::Text(tool_name@))
                &&& member(payload.as_json(), "toolUseId"@) == Some(Json::Text(tool_use_id@))
                &&& member(payload.as_json(), "toolInput"@) == Some(json(tool_input))
                &&& member(payload.as_json(), "toolInputTruncated"@) == Some(Json::Bool(tool_input_truncated))
            },
            HookPayload::UserPromptSubmit { prompt } => {
                &&& member(payload.as_json(), "prompt"@) == match prompt {
                    Some(text) => Some(Json::Text(text@)),
                    None => None,
                }
            },
            HookPayload::Notification { notification_type, message, title, level } => {
                &&& member(payload.as_json(), "notificationType"@) == Some(Json::Text(notification_type@))
                &&& member(payload.as_json(), "message"@) == match message {
                    Some(text) => Some(Json::Text(text@)),
                    None => None,
                }
                &&& member(payload.as_json(), "title"@) == match title {
                    Some(text) => Some(Json::Text(text@)),
                    None => None,
                }
                &&& member(payload.as_json(), "level"@) == match level {
                    Some(text) => Some(Json::Text(text@)),
                    None => None,
                }
            },
            HookPayload::SubagentStart { subagent_id, subagent_type, description } => {
                &&& member(payload.as_json(), "subagentId"@) == Some(Json::Text(subagent_id@))
                &&& member(payload.as_json(), "subagentType"@) == Some(Json::Text(subagent_type@))
                &&& member(payload.as_json(), "description"@) == match description {
                    Some(text) => Some(Json::Text(text@)),
                    None => None,
                }
            },
            HookPayload::SubagentStop { subagent_id, subagent_type, description, exit_code, duration_ms, tokens_used, tool_calls, turns, usage_by_model, usage_incomplete, error } => {
                &&& member(payload.as_json(), "subagentId"@) == Some(Json::Text(subagent_id@))
                &&& member(payload.as_json(), "subagentType"@) == Some(Json::Text(subagent_type@))
                &&& member(payload.as_json(), "description"@) == match description {
                    Some(text) => Some(Json::Text(text@)),
                    None => None,
                }
                &&& member(payload.as_json(), "exitCode"@) == match exit_code {
                    Some(n) => Some(Json::Integer(n as int)),
                    None => None,
                }
                &&& member(payload.as_json(), "durationMs"@) == match duration_ms {
                    Some(n) => Some(Json::Integer(n as int)),
                    None => None,
                }
                &&& member(payload.as_json(), "tokensUsed"@) == match tokens_used {
                    Some(n) => Some(Json::Integer(n as int)),
                    None => None,
                }
                &&& member(payload.as_json(), "toolCalls"@) == match tool_calls {
                    Some(n) => Some(Json::Integer(n as int)),
                    None => None,
                }
                &&& member(payload.as_json(), "turns"@) == match turns {
                    Some(n) => Some(Json::Integer(n as int)),
                    None => None,
                }
                &&& lists_usage(member(payload.as_json(), "usageByModel"@), usage_by_model@)
                &&& member(payload.as_json(), "usageIncomplete"@) == if usage_incomplete {
                    Some(Json::Bool(true))
                } else {
                    None
                }
                &&& member(payload.as_json(), "error"@) == match error {
                    Some(text) => Some(Json::Text(text@)),
                    None => None,
                }
            },
            HookPayload::PreCompact { source } => {
                &&& member(payload.as_json(), "source"@) == Some(Json::Text(source@))
            },
            HookPayload::PostCompact { source } => {
                &&& member(payload.as_json(), "source"@) == Some(Json::Text(source@))
            },
        },
{
    lemma_keys();
}

/// Nothing stands on the wire but the fields of the payload.
#[verifier::rlimit(100)]
pub proof fn a_payload_holds_its_fields_only(payload: HookPayload, key: Seq<char>)
    requires
        member(payload.as_json(), key) is Some,
    ensures
        match payload {
            HookPayload::SessionStart { .. } => {
                ||| key == "source"@
                ||| key == "modelId"@
                ||| key == "agentType"@
            },
            HookPayload::SessionEnd { .. } => {
                ||| key == "reason"@
                ||| key == "turnCount"@
                ||| key == "toolCallCount"@
                ||| key == "tokensUsed"@
                ||| key == "usageByModel"@
                ||| key == "usageIncomplete"@
                ||| key == "isSubagent"@
            },
            HookPayload::Stop { .. } => {
                ||| key == "reason"@
                ||| key == "usageByModel"@
                ||| key == "usageIncomplete"@
                ||| key == "isSubagent"@
            },
            HookPayload::StopFailure { .. } => {
                ||| key == "error"@
            },
            HookPayload::PreToolUse { .. } => {
                ||| key == "toolName"@
                ||| key == "toolUseId"@
                ||| key == "toolInput"@
                ||| key == "toolInputTruncated"@
                ||| key == "permissionMode"@
                ||| key == "subagentType"@
            },
            HookPayload::PostToolUse { .. } => {
                ||| key == "toolName"@
                ||| key == "toolUseId"@
                ||| key == "toolInput"@
                ||| key == "toolResult"@
                ||| key == "toolInputTruncated"@
                ||| key == "toolResultTruncated"@
                ||| key == "durationMs"@
                ||| key == "isBackgrounded"@
                ||| key == "subagentType"@
            },
            HookPayload::PostToolUseFailure { .. } => {
                ||| key == "toolName"@
                ||| key == "toolUseId"@
                ||| key == "toolInput"@
                ||| key == "toolInputTruncated"@
                ||| key == "error"@
                ||| key == "subagentType"@
            },
            HookPayload::PermissionDenied { .. } => {
                ||| key == "toolName"@
                ||| key == "toolUseId"@
                ||| key == "toolInput"@
                ||| key == "toolInputTruncated"@
            },
            HookPayload::UserPromptSubmit { .. } => {
                ||| key == "prompt"@
            },
            HookPayload::Notification { .. } => {
                ||| key == "notificationType"@
                ||| key == "message"@
                ||| key == "title"@
                ||| key == "level"@
            },
            HookPayload::SubagentStart { .. } => {
                ||| key == "subagentId"@
                ||| key == "subagentType"@
                ||| key == "description"@
            },
            HookPayload::SubagentStop { .. } => {
                ||| key == "subagentId"@
                ||| key == "subagentType"@
                ||| key == "description"@
                ||| key == "exitCode"@
                ||| key == "durationMs"@
                ||| key == "tokensUsed"@
                ||| key == "toolCalls"@
                ||| key == "turns"@
                ||| key == "usageByModel"@
                ||| key == "usageIncomplete"@
                ||| key == "error"@
            },
            HookPayload::PreCompact { .. } => {
                ||| key == "source"@
            },
            HookPayload::PostCompact { .. } => {
                ||| key == "source"@
            },
        },
{
}

/// Each field of a model's share stands under its own key, and nothing else
/// does.
pub proof fn a_share_holds_its_fields(usage: ModelUsage, key: Seq<char>)
    ensures
        member(usage.as_json(), "model"@) == Some(Json::Text(usage.model@)),
        member(usage.as_json(), "inputTokens"@) == Some(Json::Integer(usage.input_tokens as int)),
        member(usage.as_json(), "outputTokens"@) == Some(Json::Integer(usage.output_tokens as int)),
        member(usage.as_json(), "modelCalls"@) == Some(Json::Integer(usage.model_calls as int)),
        member(usage.as_json(), "apiDurationMs"@) == Some(Json::Integer(usage.api_duration_ms as int)),
        member(usage.as_json(), key) is Some ==> {
            ||| key == "model"@
            ||| key == "inputTokens"@
            ||| key == "outputTokens"@
            ||| key == "modelCalls"@
            ||| key == "apiDurationMs"@
        },
{
    lemma_keys();
}

/// Each field of the envelope stands under its own key, and each member of the
/// payload beside them.
pub proof fn an_envelope_holds_its_fields(envelope: HookEventEnvelope, key: Seq<char>)
    ensures
        member(envelope.as_json(), "hookEventName"@) == Some(
            Json::Text(envelope.hook_event_name.wire_spelling()),
        ),
        member(envelope.as_json(), "sessionId"@) == Some(Json::Text(envelope.session_id@)),
        member(envelope.as_json(), "cwd"@) == Some(Json::Text(envelope.cwd@)),
        member(envelope.as_json(), "workspaceRoot"@) == Some(Json::Text(envelope.workspace_root@)),
        member(envelope.as_json(), "timestamp"@) == Some(Json::Text(envelope.timestamp@)),
        member(envelope.as_json(), "transcriptPath"@) == match envelope.transcript_path {
            Some(text) => Some(Json::Text(text@)),
            None => None,
        },
        member(envelope.as_json(), "clientIdentifier"@) == match envelope.client_identifier {
            Some(text) => Some(Json::Text(text@)),
            None => None,
        },
        member(envelope.as_json(), "promptId"@) == match envelope.prompt_id {
            Some(text) => Some(Json::Text(text@)),
            None => None,
        },
        member(envelope.payload.as_json(), key) is Some ==> member(envelope.as_json(), key)
            == member(envelope.payload.as_json(), key),
{
    lemma_keys();
    envelope_keeps_metadata_and_payload(envelope, key);
    lemma_metadata(envelope, "hookEventName"@);
    lemma_metadata(envelope, "sessionId"@);
    lemma_metadata(envelope, "cwd"@);
    lemma_metadata(envelope, "workspaceRoot"@);
    lemma_metadata(envelope, "timestamp"@);
    lemma_metadata(envelope, "transcriptPath"@);
    lemma_metadata(envelope, "clientIdentifier"@);
    lemma_metadata(envelope, "promptId"@);
}

proof fn lemma_metadata(envelope: HookEventEnvelope, key: Seq<char>)
    requires
        metadata_key(key),
    ensures
        member(envelope.as_json(), key) == member(Json::Object(envelope.metadata()), key),
{
    envelope_keeps_metadata_and_payload(envelope, key);
    lemma_payload_has_no_metadata(envelope.payload, key);
}

/// These are the spellings of the events; any other name is unknown.
#[verifier::rlimit(100)]
pub proof fn an_event_has_these_spellings(s: Seq<char>)
    ensures
        event_named(s) == Some(HookEventName::SessionStart) <==> {
            ||| s == "SessionStart"@
            ||| s == "session_start"@
            ||| s == "sessionStart"@
        },
        event_named(s) == Some(HookEventName::PreToolUse) <==> {
            ||| s == "PreToolUse"@
            ||| s == "pre_tool_use"@
            ||| s == "preToolUse"@
            ||| s == "beforeShellExecution"@
            ||| s == "beforeMCPExecution"@
            ||| s == "beforeReadFile"@
        },
        event_named(s) == Some(HookEventName::PostToolUse) <==> {
            ||| s == "PostToolUse"@
            ||| s == "post_tool_use"@
            ||| s == "postToolUse"@
            ||| s == "afterShellExecution"@
            ||| s == "afterMCPExecution"@
            ||| s == "afterFileEdit"@
            ||| s == "afterAgentResponse"@
            ||| s == "afterAgentThought"@
        },
        event_named(s) == Some(HookEventName::PostToolUseFailure) <==> {
            ||| s == "PostToolUseFailure"@
            ||| s == "post_tool_use_failure"@
            ||| s == "postToolUseFailure"@
        },
        event_named(s) == Some(HookEventName::SessionEnd) <==> {
            ||| s == "SessionEnd"@
            ||| s == "session_end"@
            ||| s == "sessionEnd"@
        },
        event_named(s) == Some(HookEventName::Stop) <==> {
            ||| s == "Stop"@
            ||| s == "stop"@
        },
        event_named(s) == Some(HookEventName::StopFailure) <==> {
            ||| s == "StopFailure"@
            ||| s == "stop_failure"@
            ||| s == "stopFailure"@
        },
        event_named(s) == Some(HookEventName::Notification) <==> {
            ||| s == "Notification"@
            ||| s == "notification"@
        },
        event_named(s) == Some(HookEventName::UserPromptSubmit) <==> {
            ||| s == "UserPromptSubmit"@
            ||| s == "user_prompt_submit"@
            ||| s == "beforeSubmitPrompt"@
        },
        event_named(s) == Some(HookEventName::PermissionDenied) <==> {
            ||| s == "PermissionDenied"@
            ||| s == "permission_denied"@
            ||| s == "permissionDenied"@
        },
        event_named(s) == Some(HookEventName::SubagentStart) <==> {
            ||| s == "SubagentStart"@
            ||| s == "subagent_start"@
            ||| s == "subagentStart"@
        },
        event_named(s) == Some(HookEventName::SubagentStop) <==> {
            ||| s == "SubagentStop"@
            ||| s == "subagent_stop"@
            ||| s == "subagentStop"@
        },
        event_named(s) == Some(HookEventName::SubagentEnd) <==> {
            ||| s == "SubagentEnd"@
            ||| s == "subagent_end"@
            ||| s == "subagentEnd"@
        },
        event_named(s) == Some(HookEventName::PreCompact) <==> {
            ||| s == "PreCompact"@
            ||| s == "pre_compact"@
            ||| s == "preCompact"@
        },
        event_named(s) == Some(HookEventName::PostCompact) <==> {
            ||| s == "PostCompact"@
            ||| s == "post_compact"@
            ||| s == "postCompact"@
        },
{
    lemma_names();
}

/// The key of an optional field, where the field is there.
pub open spec fn key_where(there: bool, key: Seq<char>) -> Seq<Seq<char>> {
    if there {
        seq![key]
    } else {
        Seq::empty()
    }
}

/// The members of the envelope itself are written in the order of its fields.
pub proof fn metadata_is_written_in_order(envelope: HookEventEnvelope)
    ensures
        envelope.metadata().keys == seq![
            "hookEventName"@,
            "sessionId"@,
            "cwd"@,
            "workspaceRoot"@,
            "timestamp"@,
        ] + key_where(envelope.transcript_path is Some, "transcriptPath"@) + key_where(
            envelope.client_identifier is Some,
            "clientIdentifier"@,
        ) + key_where(envelope.prompt_id is Some, "promptId"@),
{
    lemma_keys();
}

/// The keys of a payload, in the order of its fields.
pub open spec fn declared_keys(payload: HookPayload) -> Seq<Seq<char>> {
    match payload {
        HookPayload::SessionStart { .. } => seq![
            "source"@,
            "modelId"@,
            "agentType"@,
        ],
        HookPayload::SessionEnd { .. } => seq![
            "reason"@,
            "turnCount"@,
            "toolCallCount"@,
            "tokensUsed"@,
            "usageByModel"@,
            "usageIncomplete"@,
            "isSubagent"@,
        ],
        HookPayload::Stop { .. } => seq![
            "reason"@,
            "usageByModel"@,
            "usageIncomplete"@,
            "isSubagent"@,
        ],
        HookPayload::StopFailure { .. } => seq![
            "error"@,
        ],
        HookPayload::PreToolUse { .. } => seq![
            "toolName"@,
            "toolUseId"@,
            "toolInput"@,
            "toolInputTruncated"@,
            "permissionMode"@,
            "subagentType"@,
        ],
        HookPayload::PostToolUse { .. } => seq![
            "toolName"@,
            "toolUseId"@,
            "toolInput"@,
            "toolResult"@,
            "toolInputTruncated"@,
            "toolResultTruncated"@,
            "durationMs"@,
            "isBackgrounded"@,
            "subagentType"@,
        ],
        HookPayload::PostToolUseFailure { .. } => seq![
            "toolName"@,
            "toolUseId"@,
            "toolInput"@,
            "toolInputTruncated"@,
            "error"@,
            "subagentType"@,
        ],
        HookPayload::PermissionDenied { .. } => seq![
            "toolName"@,
            "toolUseId"@,
            "toolInput"@,
            "toolInputTruncated"@,
        ],
        HookPayload::UserPromptSubmit { .. } => seq![
            "prompt"@,
        ],
        HookPayload::Notification { .. } => seq![
            "notificationType"@,
            "message"@,
            "title"@,
            "level"@,
        ],
        HookPayload::SubagentStart { .. } => seq![
            "subagentId"@,
            "subagentType"@,
            "description"@,
        ],
        HookPayload::SubagentStop { .. } => seq![
            "subagentId"@,
            "subagentType"@,
            "description"@,
            "exitCode"@,
            "durationMs"@,
            "tokensUsed"@,
            "toolCalls"@,
            "turns"@,
            "usageByModel"@,
            "usageIncomplete"@,
            "error"@,
        ],
        HookPayload::PreCompact { .. } => seq![
            "source"@,
        ],
        HookPayload::PostCompact { .. } => seq![
            "source"@,
        ],
    }
}

/// `x` stands before `y`.
pub open spec fn stands_before(all: Seq<Seq<char>>, x: Seq<char>, y: Seq<char>) -> bool {
    exists|a: int, b: int|
        0 <= a < b < all.len() && #[trigger] all[a] == x && #[trigger] all[b] == y
}

/// The members of a payload are written in the order of its fields.
#[verifier::rlimit(60)]
pub proof fn fields_are_written_in_order(payload: HookPayload, i: int, j: int)
    requires
        0 <= i < j < payload.onto(no_members()).keys.len(),
    ensures
        stands_before(
            declared_keys(payload),
            payload.onto(no_members()).keys[i],
            payload.onto(no_members()).keys[j],
        ),
{
    let d = declared_keys(payload);
    lemma_declared_once(payload);
    assert(built(no_members(), d, 0)) by {
        reveal(built);
    }
    match payload {
        HookPayload::SessionStart { source, model_id, agent_type } => {
            let m0 = lemma_next_field(no_members(), d, 0, Some(Json::Text(source@)));
            let m1 = lemma_next_field(m0, d, 1, text_of(model_id));
            let m2 = lemma_next_field(m1, d, 2, text_of(agent_type));
        },
        HookPayload::SessionEnd { reason, turn_count, tool_call_count, tokens_used, usage_by_model, usage_incomplete, is_subagent } => {
            let m0 = lemma_next_field(no_members(), d, 0, Some(Json::Text(reason@)));
            let m1 = lemma_next_field(m0, d, 1, u64_of(turn_count));
            let m2 = lemma_next_field(m1, d, 2, u64_of(tool_call_count));
            let m3 = lemma_next_field(m2, d, 3, u64_of(tokens_used));
            let m4 = lemma_next_field(m3, d, 4, usage_of(usage_by_model@));
            let m5 = lemma_next_field(m4, d, 5, flag_of(usage_incomplete));
            let m6 = lemma_next_field(m5, d, 6, flag_of(is_subagent));
        },
        HookPayload::Stop { reason, usage_by_model, usage_incomplete, is_subagent } => {
            let m0 = lemma_next_field(no_members(), d, 0, Some(Json::Text(reason@)));
            let m1 = lemma_next_field(m0, d, 1, usage_of(usage_by_model@));
            let m2 = lemma_next_field(m1, d, 2, flag_of(usage_incomplete));
            let m3 = lemma_next_field(m2, d, 3, flag_of(is_subagent));
        },
        HookPayload::StopFailure { error } => {
            let m0 = lemma_next_field(no_members(), d, 0, Some(Json::Text(error@)));
        },
        HookPayload::PreToolUse { tool_name, tool_use_id, tool_input, tool_input_truncated, permission_mode, subagent_type } => {
            let m0 = lemma_next_field(no_members(), d, 0, Some(Json::Text(tool_name@)));
            let m1 = lemma_next_field(m0, d, 1, Some(Json::Text(tool_use_id@)));
            let m2 = lemma_next_field(m1, d, 2, Some(json(tool_input)));
            let m3 = lemma_next_field(m2, d, 3, Some(Json::Bool(tool_input_truncated)));
            let m4 = lemma_next_field(m3, d, 4, text_of(permission_mode));
            let m5 = lemma_next_field(m4, d, 5, text_of(subagent_type));
        },
        HookPayload::PostToolUse { tool_name, tool_use_id, tool_input, tool_result, tool_input_truncated, tool_result_truncated, duration_ms, is_backgrounded, subagent_type } => {
            let m0 = lemma_next_field(no_members(), d, 0, Some(Json::Text(tool_name@)));
            let m1 = lemma_next_field(m0, d, 1, Some(Json::Text(tool_use_id@)));
            let m2 = lemma_next_field(m1, d, 2, Some(json(tool_input)));
            let m3 = lemma_next_field(m2, d, 3, Some(json(tool_result)));
            let m4 = lemma_next_field(m3, d, 4, Some(Json::Bool(tool_input_truncated)));
            let m5 = lemma_next_field(m4, d, 5, Some(Json::Bool(tool_result_truncated)));
            let m6 = lemma_next_field(m5, d, 6, u64_of(duration_ms));
            let m7 = lemma_next_field(m6, d, 7, Some(Json::Bool(is_backgrounded)));
            let m8 = lemma_next_field(m7, d, 8, text_of(subagent_type));
        },
        HookPayload::PostToolUseFailure { tool_name, tool_use_id, tool_input, tool_input_truncated, error, subagent_type } => {
            let m0 = lemma_next_field(no_members(), d, 0, Some(Json::Text(tool_name@)));
            let m1 = lemma_next_field(m0, d, 1, Some(Json::Text(tool_use_id@)));
            let m2 = lemma_next_field(m1, d, 2, Some(json(tool_input)));
            let m3 = lemma_next_field(m2, d, 3, Some(Json::Bool(tool_input_truncated)));
            let m4 = lemma_next_field(m3, d, 4, Some(Json::Text(error@)));
            let m5 = lemma_next_field(m4, d, 5, text_of(subagent_type));
        },
        HookPayload::PermissionDenied { tool_name, tool_use_id, tool_input, tool_input_truncated } => {
            let m0 = lemma_next_field(no_members(), d, 0, Some(Json::Text(tool_name@)));
            let m1 = lemma_next_field(m0, d, 1, Some(Json::Text(tool_use_id@)));
            let m2 = lemma_next_field(m1, d, 2, Some(json(tool_input)));
            let m3 = lemma_next_field(m2, d, 3, Some(Json::Bool(tool_input_truncated)));
        },
        HookPayload::UserPromptSubmit { prompt } => {
            let m0 = lemma_next_field(no_members(), d, 0, text_of(prompt));
        },
        HookPayload::Notification { notification_type, message, title, level } => {
            let m0 = lemma_next_field(no_members(), d, 0, Some(Json::Text(notification_type@)));
            let m1 = lemma_next_field(m0, d, 1, text_of(message));
            let m2 = lemma_next_field(m1, d, 2, text_of(title));
            let m3 = lemma_next_field(m2, d, 3, text_of(level));
        },
        HookPayload::SubagentStart { subagent_id, subagent_type, description } => {
            let m0 = lemma_next_field(no_members(), d, 0, Some(Json::Text(subagent_id@)));
            let m1 = lemma_next_field(m0, d, 1, Some(Json::Text(subagent_type@)));
            let m2 = lemma_next_field(m1, d, 2, text_of(description));
        },
        HookPayload::SubagentStop { subagent_id, subagent_type, description, exit_code, duration_ms, tokens_used, tool_calls, turns, usage_by_model, usage_incomplete, error } => {
            let m0 = lemma_next_field(no_members(), d, 0, Some(Json::Text(subagent_id@)));
            let m1 = lemma_next_field(m0, d, 1, Some(Json::Text(subagent_type@)));
            let m2 = lemma_next_field(m1, d, 2, text_of(description));
            let m3 = lemma_next_field(m2, d, 3, i32_of(exit_code));
            let m4 = lemma_next_field(m3, d, 4, u64_of(duration_ms));
            let m5 = lemma_next_field(m4, d, 5, u64_of(tokens_used));
            let m6 = lemma_next_field(m5, d, 6, u32_of(tool_calls));
            let m7 = lemma_next_field(m6, d, 7, u32_of(turns));
            let m8 = lemma_next_field(m7, d, 8, usage_of(usage_by_model@));
            let m9 = lemma_next_field(m8, d, 9, flag_of(usage_incomplete));
            let m10 = lemma_next_field(m9, d, 10, text_of(error));
        },
        HookPayload::PreCompact { source } => {
            let m0 = lemma_next_field(no_members(), d, 0, Some(Json::Text(source@)));
        },
        HookPayload::PostCompact { source } => {
            let m0 = lemma_next_field(no_members(), d, 0, Some(Json::Text(source@)));
        },
    }
    assert(built(payload.onto(no_members()), d, d.len() as int));
    reveal(built);
}

#[verifier::rlimit(60)]
proof fn lemma_declared_once(payload: HookPayload)
    ensures
        declared_keys(payload).no_duplicates(),
{
    lemma_keys();
    let d = declared_keys(payload);
    assert forall|i: int, j: int| 0 <= i < j < d.len() implies key_code(d[i]) != key_code(d[j]) by {}
    assert forall|i: int, j: int| 0 <= i < d.len() && 0 <= j < d.len() && i != j implies d[i]
        != d[j] by {
        if i < j {
            assert(key_code(d[i]) != key_code(d[j]));
        } else {
            assert(key_code(d[j]) != key_code(d[i]));
        }
    }
}

/// `map` holds some of the first `n` keys, in their order.
#[verifier::opaque]
spec fn built(map: Members, d: Seq<Seq<char>>, n: int) -> bool {
    &&& forall|key: Seq<char>| #[trigger]
        map.values.dom().contains(key) ==> exists|a: int| 0 <= a < n && #[trigger] d[a] == key
    &&& forall|i: int|
        0 <= i < map.keys.len() ==> exists|a: int|
            0 <= a < n && #[trigger] d[a] == #[trigger] map.keys[i]
    &&& forall|i: int, j: int|
        0 <= i < j < map.keys.len() ==> stands_before(d, #[trigger] map.keys[i], #[trigger] map.keys[j])
}

proof fn lemma_next_field(
    map: Members,
    d: Seq<Seq<char>>,
    n: int,
    value: Option<Json>,
) -> (next: Members)
    requires
        built(map, d, n),
        0 <= n < d.len(),
        d.no_duplicates(),
    ensures
        next == with_some(map, d[n], value),
        built(next, d, n + 1),
{
    reveal(built);
    let key = d[n];
    let next = with_some(map, key, value);
    assert(!map.values.dom().contains(key)) by {
        if map.values.dom().contains(key) {
            let a = choose|a: int| 0 <= a < n && #[trigger] d[a] == key;
            assert(d[a] != d[n]);
        }
    }
    assert forall|k: Seq<char>| #[trigger] next.values.dom().contains(k) implies exists|a: int|
        0 <= a < n + 1 && #[trigger] d[a] == k by {
        if k == key {
            assert(d[n] == k);
        } else {
            assert(map.values.dom().contains(k));
            let a = choose|a: int| 0 <= a < n && #[trigger] d[a] == k;
            assert(d[a] == k);
        }
    }
    assert forall|i: int| 0 <= i < next.keys.len() implies exists|a: int|
        0 <= a < n + 1 && #[trigger] d[a] == #[trigger] next.keys[i] by {
        if i < map.keys.len() {
            let a = choose|a: int| 0 <= a < n && #[trigger] d[a] == map.keys[i];
            assert(d[a] == next.keys[i]);
        } else {
            assert(d[n] == next.keys[i]);
        }
    }
    assert forall|i: int, j: int| 0 <= i < j < next.keys.len() implies stands_before(
        d,
        #[trigger] next.keys[i],
        #[trigger] next.keys[j],
    ) by {
        let a = choose|a: int| 0 <= a < n && #[trigger] d[a] == map.keys[i];
        assert(map.keys[i] == next.keys[i]);
        if j < map.keys.len() {
            assert(map.keys[j] == next.keys[j]);
        } else {
            assert(d[a] == next.keys[i] && d[n] == next.keys[j]);
        }
    }
    next
}

/// A key of the envelope itself.
spec fn metadata_key(key: Seq<char>) -> bool {
    ||| key == "hookEventName"@
    ||| key == "sessionId"@
    ||| key == "cwd"@
    ||| key == "workspaceRoot"@
    ||| key == "timestamp"@
    ||| key == "transcriptPath"@
    ||| key == "clientIdentifier"@
    ||| key == "promptId"@
}

/// Putting a payload onto a map adds its members and leaves the others.
proof fn lemma_onto(payload: HookPayload, map: Members, key: Seq<char>)
    ensures
        member(Json::Object(payload.onto(map)), key) == match member(payload.as_json(), key) {
            Some(value) => Some(value),
            None => member(Json::Object(map), key),
        },
{
}

#[verifier::rlimit(50)]
proof fn lemma_payload_has_no_metadata(payload: HookPayload, key: Seq<char>)
    requires
        metadata_key(key),
    ensures
        member(payload.as_json(), key) is None,
{
    lemma_keys();
}

/// A truncated payload is the size limit and the marker at most.
pub proof fn truncated_text_is_bounded(text: Seq<char>, cut: Seq<char>)
    requires
        longest_fit(text, cut, MAX_PAYLOAD_SIZE as nat),
    ensures
        encode_utf8(cut + " [truncated]"@).len() <= MAX_PAYLOAD_SIZE + 12,
{
    reveal_strlit(" [truncated]");
    let marker = " [truncated]"@;
    lemma_encode_concat(cut, marker);
    is_ascii_chars_encode_utf8(marker);
}

/// The complaint about an unknown event quotes the name and lists what would
/// have been understood.
pub proof fn an_unknown_event_is_quoted(s: Seq<char>)
    ensures
        unknown_event(s) == "unknown hook event: '"@ + s
            + "'. Expected one of: SessionStart, PreToolUse, PostToolUse, PostToolUseFailure, SessionEnd, Stop, StopFailure, Notification, UserPromptSubmit, PermissionDenied, SubagentStart, SubagentStop, PreCompact, PostCompact"@,
{
}

/// A text is cut after the last character that still fits into 131072 bytes:
/// what is kept begins the text and fits, and no longer beginning does.
pub proof fn as_much_as_fits_is_kept(text: Seq<char>, cut: Seq<char>, n: int)
    requires
        longest_fit(text, cut, MAX_PAYLOAD_SIZE as nat),
        cut.len() < n <= text.len(),
    ensures
        text == cut + text.skip(cut.len() as int),
        encode_utf8(cut).len() <= 131072,
        encode_utf8(text.take(n)).len() > 131072,
{
    lemma_prefix_monotone(text, cut.len() as int + 1, n);
    assert(text =~= cut + text.skip(cut.len() as int));
}

/// There is one place to cut: a text has a single longest fit.
pub proof fn longest_fit_is_unique(text: Seq<char>, a: Seq<char>, b: Seq<char>, max: nat)
    requires
        longest_fit(text, a, max),
        longest_fit(text, b, max),
    ensures
        a == b,
{
    if a.len() < b.len() {
        lemma_prefix_monotone(text, a.len() as int + 1, b.len() as int);
    } else if b.len() < a.len() {
        lemma_prefix_monotone(text, b.len() as int + 1, a.len() as int);
    }
}

proof fn lemma_prefix_monotone(text: Seq<char>, m: int, n: int)
    requires
        0 <= m <= n <= text.len(),
    ensures
        encode_utf8(text.take(m)).len() <= encode_utf8(text.take(n)).len(),
    decreases n - m,
{
    if m < n {
        lemma_prefix_monotone(text, m, n - 1);
        lemma_prefix_grows(text, n - 1);
    }
}

/// A number that tells the keys on the wire apart.
spec fn key_code(s: Seq<char>) -> int {
    ((s.len() as int) * 128 + s[0] as int) * 128 + s[s.len() - 2] as int
}

proof fn lemma_keys()
    ensures
        key_code("source"@) == 113123,
        key_code("modelId"@) == 128713,
        key_code("agentType"@) == 159984,
        key_code("reason"@) == 113007,
        key_code("turnCount"@) == 162414,
        key_code("toolCallCount"@) == 227950,
        key_code("tokensUsed"@) == 178789,
        key_code("usageByModel"@) == 211685,
        key_code("usageIncomplete"@) == 260852,
        key_code("isSubagent"@) == 177390,
        key_code("error"@) == 94959,
        key_code("toolName"@) == 146029,
        key_code("toolUseId"@) == 162377,
        key_code("toolInput"@) == 162421,
        key_code("toolInputTruncated"@) == 309861,
        key_code("permissionMode"@) == 243812,
        key_code("subagentType"@) == 211440,
        key_code("toolResult"@) == 178796,
        key_code("toolResultTruncated"@) == 326245,
        key_code("durationMs"@) == 176717,
        key_code("isBackgrounded"@) == 242917,
        key_code("prompt"@) == 112752,
        key_code("notificationType"@) == 276336,
        key_code("message"@) == 128743,
        key_code("title"@) == 96876,
        key_code("level"@) == 95845,
        key_code("subagentId"@) == 178633,
        key_code("description"@) == 193135,
        key_code("exitCode"@) == 144100,
        key_code("toolCalls"@) == 162412,
        key_code("turns"@) == 96878,
        key_code("hookEventName"@) == 226413,
        key_code("sessionId"@) == 162249,
        key_code("cwd"@) == 61943,
        key_code("workspaceRoot"@) == 228335,
        key_code("timestamp"@) == 162413,
        key_code("transcriptPath"@) == 244340,
        key_code("clientIdentifier"@) == 274917,
        key_code("promptId"@) == 145481,
        key_code("model"@) == 95973,
        key_code("inputTokens"@) == 193774,
        key_code("outputTokens"@) == 210926,
        key_code("modelCalls"@) == 177900,
        key_code("apiDurationMs"@) == 225485,
        key_code("costUsdTicks"@) == 209387,
        key_code("cost_usd_ticks"@) == 242155,
{
    reveal_strlit("source");
    reveal_strlit("modelId");
    reveal_strlit("agentType");
    reveal_strlit("reason");
    reveal_strlit("turnCount");
    reveal_strlit("toolCallCount");
    reveal_strlit("tokensUsed");
    reveal_strlit("usageByModel");
    reveal_strlit("usageIncomplete");
    reveal_strlit("isSubagent");
    reveal_strlit("error");
    reveal_strlit("toolName");
    reveal_strlit("toolUseId");
    reveal_strlit("toolInput");
    reveal_strlit("toolInputTruncated");
    reveal_strlit("permissionMode");
    reveal_strlit("subagentType");
    reveal_strlit("toolResult");
    reveal_strlit("toolResultTruncated");
    reveal_strlit("durationMs");
    reveal_strlit("isBackgrounded");
    reveal_strlit("prompt");
    reveal_strlit("notificationType");
    reveal_strlit("message");
    reveal_strlit("title");
    reveal_strlit("level");
    reveal_strlit("subagentId");
    reveal_strlit("description");
    reveal_strlit("exitCode");
    reveal_strlit("toolCalls");
    reveal_strlit("turns");
    reveal_strlit("hookEventName");
    reveal_strlit("sessionId");
    reveal_strlit("cwd");
    reveal_strlit("workspaceRoot");
    reveal_strlit("timestamp");
    reveal_strlit("transcriptPath");
    reveal_strlit("clientIdentifier");
    reveal_strlit("promptId");
    reveal_strlit("model");
    reveal_strlit("inputTokens");
    reveal_strlit("outputTokens");
    reveal_strlit("modelCalls");
    reveal_strlit("apiDurationMs");
    reveal_strlit("costUsdTicks");
    reveal_strlit("cost_usd_ticks");
}

/// A number that tells the names of events apart.
spec fn name_code(s: Seq<char>) -> int {
    (((s.len() as int) * 128 + s[0] as int) * 128 + s[1] as int) * 128 + s[s.len() - 1] as int
}

proof fn lemma_names()
    ensures
        name_code("SessionStart"@) == 26538740,
        name_code("session_start"@) == 29160180,
        name_code("sessionStart"@) == 27063028,
        name_code("PreToolUse"@) == 22296933,
        name_code("pre_tool_use"@) == 27015525,
        name_code("preToolUse"@) == 22821221,
        name_code("beforeShellExecution"@) == 43561710,
        name_code("beforeMCPExecution"@) == 39367406,
        name_code("beforeReadFile"@) == 30978789,
        name_code("PostToolUse"@) == 24393701,
        name_code("post_tool_use"@) == 29112293,
        name_code("postToolUse"@) == 24917989,
        name_code("afterShellExecution"@) == 41448302,
        name_code("afterMCPExecution"@) == 37253998,
        name_code("afterFileEdit"@) == 28865396,
        name_code("afterAgentResponse"@) == 39351141,
        name_code("afterAgentThought"@) == 37254004,
        name_code("PostToolUseFailure"@) == 39073765,
        name_code("post_tool_use_failure"@) == 45889509,
        name_code("postToolUseFailure"@) == 39598053,
        name_code("SessionEnd"@) == 22344420,
        name_code("session_end"@) == 24965860,
        name_code("sessionEnd"@) == 22868708,
        name_code("Stop"@) == 9763440,
        name_code("stop"@) == 10287728,
        name_code("StopFailure"@) == 24443493,
        name_code("stop_failure"@) == 27064933,
        name_code("stopFailure"@) == 24967781,
        name_code("Notification"@) == 26458094,
        name_code("notification"@) == 26982382,
        name_code("UserPromptSubmit"@) == 34961908,
        name_code("user_prompt_submit"@) == 39680500,
        name_code("beforeSubmitPrompt"@) == 39367412,
        name_code("PermissionDenied"@) == 34878180,
        name_code("permission_denied"@) == 37499620,
        name_code("permissionDenied"@) == 35402468,
        name_code("SubagentStart"@) == 28637940,
        name_code("subagent_start"@) == 31259380,
        name_code("subagentStart"@) == 29162228,
        name_code("SubagentStop"@) == 26540784,
        name_code("subagent_stop"@) == 29162224,
        name_code("subagentStop"@) == 27065072,
        name_code("SubagentEnd"@) == 24443620,
        name_code("subagent_end"@) == 27065060,
        name_code("subagentEnd"@) == 24967908,
        name_code("PreCompact"@) == 22296948,
        name_code("pre_compact"@) == 24918388,
        name_code("preCompact"@) == 22821236,
        name_code("PostCompact"@) == 24393716,
        name_code("post_compact"@) == 27015156,
        name_code("postCompact"@) == 24918004,
{
    reveal_strlit("SessionStart");
    reveal_strlit("session_start");
    reveal_strlit("sessionStart");
    reveal_strlit("PreToolUse");
    reveal_strlit("pre_tool_use");
    reveal_strlit("preToolUse");
    reveal_strlit("beforeShellExecution");
    reveal_strlit("beforeMCPExecution");
    reveal_strlit("beforeReadFile");
    reveal_strlit("PostToolUse");
    reveal_strlit("post_tool_use");
    reveal_strlit("postToolUse");
    reveal_strlit("afterShellExecution");
    reveal_strlit("afterMCPExecution");
    reveal_strlit("afterFileEdit");
    reveal_strlit("afterAgentResponse");
    reveal_strlit("afterAgentThought");
    reveal_strlit("PostToolUseFailure");
    reveal_strlit("post_tool_use_failure");
    reveal_strlit("postToolUseFailure");
    reveal_strlit("SessionEnd");
    reveal_strlit("session_end");
    reveal_strlit("sessionEnd");
    reveal_strlit("Stop");
    reveal_strlit("stop");
    reveal_strlit("StopFailure");
    reveal_strlit("stop_failure");
    reveal_strlit("stopFailure");
    reveal_strlit("Notification");
    reveal_strlit("notification");
    reveal_strlit("UserPromptSubmit");
    reveal_strlit("user_prompt_submit");
    reveal_strlit("beforeSubmitPrompt");
    reveal_strlit("PermissionDenied");
    reveal_strlit("permission_denied");
    reveal_strlit("permissionDenied");
    reveal_strlit("SubagentStart");
    reveal_strlit("subagent_start");
    reveal_strlit("subagentStart");
    reveal_strlit("SubagentStop");
    reveal_strlit("subagent_stop");
    reveal_strlit("subagentStop");
    reveal_strlit("SubagentEnd");
    reveal_strlit("subagent_end");
    reveal_strlit("subagentEnd");
    reveal_strlit("PreCompact");
    reveal_strlit("pre_compact");
    reveal_strlit("preCompact");
    reveal_strlit("PostCompact");
    reveal_strlit("post_compact");
    reveal_strlit("postCompact");
}

// ---- What the functions give ----

/// A name is read as the event that it spells, and one that spells none is
/// quoted back.
pub proof fn a_name_is_read_as_its_event(
    s: &str,
    r: Result<HookEventName, String>,
)
    requires
        call_ensures(HookEventName::from_name, (s,), r),
    ensures
        r matches Ok(event) ==> event_named(s@) == Some(event),
        r matches Err(message) ==> event_named(s@) is None && message@ == "unknown hook event: '"@
            + s@
            + "'. Expected one of: SessionStart, PreToolUse, PostToolUse, PostToolUseFailure, SessionEnd, Stop, StopFailure, Notification, UserPromptSubmit, PermissionDenied, SubagentStart, SubagentStop, PreCompact, PostCompact"@,
{
}

/// An event is written under a name that reads back as itself, is shown under
/// one that reads back as its canonical form, can block only before a tool runs,
/// and takes no matcher where it belongs to the session.
pub proof fn an_event_behaves_as_its_kind(
    event: &HookEventName,
    wire: &'static str,
    display: &'static str,
    canonical: HookEventName,
    blocking: bool,
    lifecycle: bool,
)
    requires
        call_ensures(HookEventName::wire_name, (event,), wire),
        call_ensures(HookEventName::display_name, (event,), display),
        call_ensures(HookEventName::canonical, (*event,), canonical),
        call_ensures(HookEventName::is_blocking, (event,), blocking),
        call_ensures(HookEventName::is_lifecycle, (event,), lifecycle),
    ensures
        event_named(wire@) == Some(*event),
        event_named(display@) == Some(canonical),
        canonical == if *event is SubagentEnd {
            HookEventName::SubagentStop
        } else {
            *event
        },
        blocking <==> *event is PreToolUse,
        lifecycle <==> (*event is SessionStart || *event is SessionEnd || *event is Stop || *event
            is UserPromptSubmit),
{
    wire_name_reads_back(*event);
    display_name_reads_back_as_canonical(*event);
}

/// What a payload, a share and an envelope are turned into is what they are on
/// the wire.
pub proof fn values_are_what_goes_on_the_wire(
    payload: &HookPayload,
    a: serde_json::Value,
    usage: &ModelUsage,
    b: serde_json::Value,
    envelope: &HookEventEnvelope,
    c: serde_json::Value,
)
    requires
        call_ensures(HookPayload::to_value, (payload,), a),
        call_ensures(ModelUsage::to_value, (usage,), b),
        call_ensures(HookEventEnvelope::to_value, (envelope,), c),
    ensures
        json(a) == payload.as_json(),
        json(b) == usage.as_json(),
        json(c) == envelope.as_json(),
{
}

/// A tool call reaches a hook with its name, its id and its input under their
/// own keys, whatever became of the call.
pub proof fn a_tool_call_reaches_the_hook(payload: &HookPayload, r: serde_json::Value)
    requires
        call_ensures(HookPayload::to_value, (payload,), r),
    ensures
        match *payload {
            HookPayload::PreToolUse { tool_name, tool_use_id, tool_input, tool_input_truncated, .. }
            | HookPayload::PostToolUse {
                tool_name,
                tool_use_id,
                tool_input,
                tool_input_truncated,
                ..
            }
            | HookPayload::PostToolUseFailure {
                tool_name,
                tool_use_id,
                tool_input,
                tool_input_truncated,
                ..
            }
            | HookPayload::PermissionDenied {
                tool_name,
                tool_use_id,
                tool_input,
                tool_input_truncated,
            } => {
                &&& member(json(r), "toolName"@) == Some(Json::Text(tool_name@))
                &&& member(json(r), "toolUseId"@) == Some(Json::Text(tool_use_id@))
                &&& member(json(r), "toolInput"@) == Some(json(tool_input))
                &&& member(json(r), "toolInputTruncated"@) == Some(Json::Bool(tool_input_truncated))
            },
            _ => true,
        },
{
    a_field_stands_under_its_key(*payload);
}

/// A value of up to 131072 bytes of text stays as it is; a longer one becomes
/// the beginning of its text, as much as fits, with a mark behind it.
pub proof fn only_a_long_value_is_cut(
    value: serde_json::Value,
    r: (serde_json::Value, bool),
    text: String,
    cut: Option<String>,
)
    requires
        call_ensures(truncate_payload, (value,), r),
        call_ensures(truncate_text, (text,), cut),
    ensures
        r.1 <==> encode_utf8(json_text(value)).len() > 131072,
        !r.1 ==> r.0 == value,
        r.1 ==> exists|n: int|
            {
                &&& 0 <= n < json_text(value).len()
                &&& json(r.0) == Json::Text(#[trigger] json_text(value).take(n) + " [truncated]"@)
                &&& encode_utf8(json_text(value).take(n)).len() <= 131072
                &&& encode_utf8(json_text(value).take(n + 1)).len() > 131072
            },
        cut is Some <==> encode_utf8(text@).len() > 131072,
        cut matches Some(short) ==> exists|n: int|
            {
                &&& 0 <= n < text@.len()
                &&& short@ == #[trigger] text@.take(n) + " [truncated]"@
                &&& encode_utf8(text@.take(n)).len() <= 131072
                &&& encode_utf8(text@.take(n + 1)).len() > 131072
            },
{
    if r.1 {
        let all = json_text(value);
        let kept = choose|kept: Seq<char>|
            {
                &&& #[trigger] longest_fit(all, kept, MAX_PAYLOAD_SIZE as nat)
                &&& json(r.0) == Json::Text(kept + " [truncated]"@)
            };
        let n = kept.len() as int;
        assert(kept == all.take(n));
        assert(n < all.len()) by {
            if n == all.len() {
                assert(all.take(n) =~= all);
            }
        }
        assert(json(r.0) == Json::Text(all.take(n) + " [truncated]"@));
    }
    if let Some(short) = cut {
        let all = text@;
        let kept = choose|kept: Seq<char>|
            {
                &&& #[trigger] longest_fit(all, kept, MAX_PAYLOAD_SIZE as nat)
                &&& short@ == kept + " [truncated]"@
            };
        let n = kept.len() as int;
        assert(kept == all.take(n));
        assert(n < all.len()) by {
            if n == all.len() {
                assert(all.take(n) =~= all);
            }
        }
        assert(short@ == all.take(n) + " [truncated]"@);
    }
}

} // verus!
