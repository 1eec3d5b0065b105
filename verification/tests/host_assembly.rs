use conga_core::assembly::{
    approval_timeout_secs, assemble_tool_set, dedup_tool_names, resume_target, sub_log_root,
    subagent_tools, AssemblyError, ResumeTarget, config_gate, fast_provider_choice, hook_order, FastEnv,
    FastSource, HookSlot,
};
use conga_core::clock::{millis_from, now, subsec_nanos_now, EpochTime};
use conga_core::event_store::{
    branch_name, event_type_name, extract_event_fields, record_head, render_branches, EventKind,
    StoredBranches, SummaryKind,
};
use conga_core::ext::ToolSpec;
use conga_core::name_map::NameMap;
use conga_core::paths::{choose_config_dir, config_dir_candidates, join_path};
use conga_core::tool::RiskLevel;
use conga_core::errors::{AgentError, ChannelConfigError, ConfigValidationError, PipelineError, ProviderError};

fn named_tool(name: &str) -> ToolSpec {
    ToolSpec {
        name: name.into(),
        label: name.into(),
        description: String::new(),
        parameters: "{\"type\": \"object\"}".to_string(),
        risk: RiskLevel::Low,
    }
}

fn names(ts: &[ToolSpec]) -> Vec<&str> {
    ts.iter().map(|t| t.name.as_str()).collect()
}

#[test]
fn duplicate_tool_names_first_wins() {
    let tools = vec![named_tool("bash"), named_tool("web_search"), named_tool("bash")];
    let out = dedup_tool_names(tools);
    assert_eq!(out.len(), 2);
    assert_eq!(out[0].name, "bash");
    assert_eq!(out[1].name, "web_search");
}

#[test]
fn assembly_order_is_the_priority() {
    let mut mcp_bash = named_tool("bash");
    mcp_bash.description = "from mcp".to_string();
    let out = assemble_tool_set(
        vec![named_tool("bash"), named_tool("read")],
        vec![named_tool("rag_search")],
        vec![named_tool("jq"), named_tool("read")],
        vec![mcp_bash, named_tool("fetch")],
        vec![named_tool("desktop"), named_tool("jq")],
    );
    assert_eq!(names(&out), vec!["bash", "read", "rag_search", "jq", "fetch", "desktop"]);
    assert_eq!(out[0].description, "");
}

#[test]
fn subagents_never_get_the_spawner() {
    let built_in = vec![named_tool("bash"), named_tool("spawn_subagents"), named_tool("read")];
    assert_eq!(names(&subagent_tools(&built_in)), vec!["bash", "read"]);
}

#[test]
fn approval_timeout_defaults_to_five_minutes() {
    assert_eq!(approval_timeout_secs(None), 300);
    assert_eq!(approval_timeout_secs(Some("60")), 60);
    assert_eq!(approval_timeout_secs(Some("+7")), 7);
    assert_eq!(approval_timeout_secs(Some("abc")), 300);
    assert_eq!(approval_timeout_secs(Some("-1")), 300);
    assert_eq!(approval_timeout_secs(Some("99999999999999999999999")), 300);
}

#[test]
fn resume_last_or_by_id() {
    assert_eq!(resume_target("last"), ResumeTarget::Last);
    assert_eq!(resume_target("abc"), ResumeTarget::Id("abc".to_string()));
    assert_eq!(sub_log_root("/h/.conga/sessions", "s1"), "/h/.conga/sessions/s1/sub");
    assert_eq!(AssemblyError::Config("x".to_string()).message(), "Config error: x");
    assert_eq!(AssemblyError::Session("y".to_string()).message(), "Session error: y");
}

#[test]
fn config_dir_prefers_new_root_and_falls_back_to_legacy() {
    let (new, legacy) = config_dir_candidates(Some("/home/u"));
    assert_eq!(new, "/home/u/.conga");
    assert_eq!(legacy, "/home/u/.gasket");
    assert!(choose_config_dir(new.clone(), legacy.clone(), false, true).ends_with(".gasket"));
    assert!(choose_config_dir(new.clone(), legacy.clone(), true, true).ends_with(".conga"));
    assert!(choose_config_dir(new, legacy, false, false).ends_with(".conga"));
    let (dot, _) = config_dir_candidates(None);
    assert_eq!(dot, "./.conga");
    assert_eq!(join_path("/a", "/abs"), "/abs");
    assert_eq!(join_path("/a/", "b"), "/a/b");
}

#[test]
fn clock_readings_become_milliseconds() {
    assert_eq!(millis_from(None), 0);
    assert_eq!(millis_from(Some(EpochTime { secs: 2, subsec_nanos: 345_678_901 })), 2345);
    let before = now();
    let after = now();
    assert!(after >= before);
    assert!(before > 1_600_000_000_000);
    assert!(subsec_nanos_now() < 1_000_000_000);
}

#[test]
fn event_kinds_and_their_columns() {
    assert_eq!(event_type_name(&EventKind::UserMessage), "user_message");
    let call = EventKind::ToolCall { tool_name: "read_file".to_string(), arguments: "{\"path\":\"/test.txt\"}".to_string() };
    assert_eq!(event_type_name(&call), "tool_call");
    let f = extract_event_fields(&call);
    assert_eq!(f.tool_name.as_deref(), Some("read_file"));
    assert_eq!(f.tool_arguments.as_deref(), Some("{\"path\":\"/test.txt\"}"));
    assert_eq!(f.is_error, None);

    let result = EventKind::ToolResult { tool_call_id: "call_123".to_string(), tool_name: "read_file".to_string(), is_error: false };
    let f = extract_event_fields(&result);
    assert_eq!(f.tool_name.as_deref(), Some("read_file"));
    assert_eq!(f.tool_call_id.as_deref(), Some("call_123"));
    assert_eq!(f.is_error, Some(0));

    let summary = EventKind::Summary {
        summary_type: SummaryKind::Topic { topic: "discussion about API".to_string() },
        covered_event_ids: vec!["id-1".to_string(), "id-2".to_string()],
    };
    let f = extract_event_fields(&summary);
    assert_eq!(f.summary_type.as_deref(), Some("topic"));
    assert_eq!(f.summary_topic.as_deref(), Some("discussion about API"));
    assert_eq!(f.covered_events.as_deref(), Some("[\"id-1\",\"id-2\"]"));
    let window = EventKind::Summary { summary_type: SummaryKind::TimeWindow { duration_hours: 24 }, covered_event_ids: vec![] };
    assert_eq!(extract_event_fields(&window).summary_type.as_deref(), Some("time_window:24"));
    let compression = EventKind::Summary { summary_type: SummaryKind::Compression { token_budget: 4000 }, covered_event_ids: vec![] };
    let f = extract_event_fields(&compression);
    assert_eq!(f.summary_type.as_deref(), Some("compression:4000"));
    assert_eq!(f.summary_topic, None);
    assert_eq!(f.covered_events.as_deref(), Some("[]"));

    let merge = EventKind::Merge { source_branch: "feature".to_string(), source_head: "h".to_string() };
    let f = extract_event_fields(&merge);
    assert_eq!(f.merge_source.as_deref(), Some("feature"));
    assert_eq!(f.merge_head.as_deref(), Some("h"));
    assert_eq!(f.tool_name, None);
    assert_eq!(event_type_name(&merge), "merge");
}

#[test]
fn branch_heads_track_the_newest_event() {
    assert_eq!(branch_name(None), "main");
    assert_eq!(branch_name(Some("feature")), "feature");
    let b = record_head(StoredBranches::Missing, "feature", "\"e1\"".to_string());
    assert_eq!(render_branches(&b).as_deref(), Some("{\"feature\":\"e1\"}"));
    let mut m = NameMap::new();
    m.insert("main".to_string(), "\"e0\"".to_string());
    m.insert("a\"b".to_string(), "7".to_string());
    let b = record_head(StoredBranches::Object(m), "main", "\"e2\"".to_string());
    assert_eq!(render_branches(&b).as_deref(), Some("{\"a\\\"b\":7,\"main\":\"e2\"}"));
    let other = record_head(StoredBranches::Other("[1]".to_string()), "main", "\"e3\"".to_string());
    assert_eq!(render_branches(&other).as_deref(), Some("[1]"));
    assert_eq!(render_branches(&StoredBranches::Missing).as_deref(), Some("{}"));
}

#[test]
fn error_messages_match_their_variants() {
    let p = ProviderError::ApiError { status_code: 502, message: "bad gateway".to_string() };
    assert_eq!(p.message(), "API error (status 502): bad gateway");
    let a: AgentError = ProviderError::AuthError("no key".to_string()).into();
    assert_eq!(a.message(), "LLM provider error: Authentication failed: no key");
    let c: ConfigValidationError = ChannelConfigError::InvalidChannelConfig("slack".to_string(), "no token".to_string()).into();
    assert_eq!(c.message(), "Channel 'slack' has invalid configuration: no token");
    assert_eq!(
        PipelineError::ReviewLimitExceeded("t1".to_string(), 3).message(),
        "Review limit exceeded for task t1 (max 3)"
    );
    assert_eq!(ChannelConfigError::IncompleteEmailConfig.message(), "Email channel requires either IMAP or SMTP configuration");
}

#[test]
fn config_errors_come_before_the_session_and_policy_gates_last() {
    match config_gate(Some("missing CONGA_LLM_KEY")) {
        Err(e) => assert_eq!(e.message(), "Config error: missing CONGA_LLM_KEY"),
        Ok(()) => panic!("a config error must refuse the session"),
    }
    assert!(config_gate(None).is_ok());
    assert_eq!(hook_order(2, true), vec![HookSlot::Extra(0), HookSlot::Extra(1), HookSlot::Process, HookSlot::Policy]);
    assert_eq!(hook_order(0, false), vec![HookSlot::Policy]);
}

#[test]
fn fast_provider_precedence_and_partial_env_warning() {
    assert_eq!(fast_provider_choice(true, &FastEnv::Complete), (FastSource::Settings, None));
    assert_eq!(fast_provider_choice(false, &FastEnv::Complete), (FastSource::Env, None));
    assert_eq!(fast_provider_choice(false, &FastEnv::Unset), (FastSource::Main, None));
    let (src, warn) = fast_provider_choice(false, &FastEnv::Partial("CONGA_FAST_LLM_KEY unset".to_string()));
    assert_eq!(src, FastSource::Main);
    assert_eq!(
        warn.as_deref(),
        Some("(warning: CONGA_FAST_LLM_* incomplete, sub-agents keep the main model: CONGA_FAST_LLM_KEY unset)")
    );
}
