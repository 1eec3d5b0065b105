use conga_core::config_file::{
    discover, overlay, ConfigFile, ConfigFileError, GatewaySection, LlmSection, ProxySection,
    TunablesSection, CompactSection, ToolsSection, SearchSection, RagSection,
};

fn s(v: &str) -> Option<String> {
    Some(v.to_string())
}

fn full() -> ConfigFile {
    ConfigFile {
        llm: Some(LlmSection { base_url: s("https://api.x.com/v1"), key: s("sk-1"), model: s("m1"), api: s("anthropic") }),
        fast_llm: Some(LlmSection { base_url: s("https://fast.x.com/v1"), key: s("sk-2"), model: s("m2"), api: None }),
        proxy: Some(ProxySection { llm: s("http://p:8080"), tool: s("socks5://127.0.0.1:1080"), ..Default::default() }),
        tunables: Some(TunablesSection {
            max_turns: Some(7),
            max_tool_calls: Some(8),
            max_tokens: Some(123),
            retry_max: Some(3),
            retry_initial_ms: Some(100),
            retry_max_ms: Some(2000),
            tool_timeout_s: Some(30),
        }),
        gateway: Some(GatewaySection {
            port: Some(3000),
            host: s("0.0.0.0"),
            mode: s("plan"),
            approval_timeout_s: Some(60),
            token: s("t"),
            cors_origins: s("https://a.example"),
        }),
        compact: Some(CompactSection {
            context_window: Some(64000),
            threshold_pct: Some(75),
            target_pct: Some(40),
            max_messages: Some(20),
        }),
        tools: Some(ToolsSection {
            external_tools: s("rg,jq"),
            mcp_config: s("/tmp/mcp.json"),
            mcp_call_timeout_s: Some(90),
            fetch_allow_private_net: Some(true),
            sandbox: Some(true),
            project_dir: s("/tmp/proj"),
        }),
        search: Some(SearchSection {
            provider: s("brave"),
            brave_api_key: s("bk"),
            tavily_api_key: s("tk"),
            serper_api_key: s("sp"),
            serpapi_api_key: s("spp"),
            exa_api_key: s("ex"),
            firecrawl_api_key: s("fc"),
        }),
        rag: Some(RagSection {
            config: s("/tmp/rag.toml"),
            embed_base_url: s("https://e.x.com/v1"),
            embed_key: s("ek"),
            embed_model: s("emb-1"),
            embed_batch: Some(8),
            store_path: s("/tmp/index.db"),
        }),
    }
}

#[test]
fn parses_and_maps_every_section() {
    let cfg = full();
    let pairs = cfg.env_pairs();
    let get = |k: &str| {
        pairs
            .iter()
            .find(|(n, _)| n == k)
            .map(|(_, v)| v.clone())
            .unwrap_or_else(|| panic!("missing {k}"))
    };
    assert_eq!(get("CONGA_LLM_BASE_URL"), "https://api.x.com/v1");
    assert_eq!(get("CONGA_LLM_API"), "anthropic");
    assert_eq!(get("CONGA_FAST_LLM_MODEL"), "m2");
    assert_eq!(get("CONGA_LLM_PROXY"), "http://p:8080");
    assert_eq!(get("CONGA_TOOL_PROXY"), "socks5://127.0.0.1:1080");
    assert_eq!(get("CONGA_MAX_TURNS"), "7");
    assert_eq!(get("CONGA_TOOL_TIMEOUT_S"), "30");
    assert_eq!(get("CONGA_GATEWAY_PORT"), "3000");
    assert_eq!(get("CONGA_GATEWAY_MODE"), "plan");
    assert_eq!(get("CONGA_APPROVAL_TIMEOUT_S"), "60");
    assert_eq!(get("CONGA_CONTEXT_WINDOW"), "64000");
    assert_eq!(get("CONGA_COMPACT_MAX_MESSAGES"), "20");
    assert_eq!(get("CONGA_EXTERNAL_TOOLS"), "rg,jq");
    assert_eq!(get("CONGA_FETCH_ALLOW_PRIVATE_NET"), "1");
    assert_eq!(get("CONGA_SANDBOX"), "1");
    assert_eq!(get("CONGA_PROJECT_DIR"), "/tmp/proj");
    assert_eq!(get("CONGA_SEARCH_PROVIDER"), "brave");
    assert_eq!(get("CONGA_FIRECRAWL_API_KEY"), "fc");
    assert_eq!(get("CONGA_RAG_CONFIG"), "/tmp/rag.toml");
    assert_eq!(get("CONGA_RAG_EMBED_BATCH"), "8");
    assert_eq!(pairs.len(), 45);
}

#[test]
fn empty_file_is_noop() {
    let cfg = ConfigFile::default();
    assert!(cfg.env_pairs().is_empty());
}

#[test]
fn empty_string_values_are_skipped() {
    let cfg = ConfigFile {
        llm: Some(LlmSection { base_url: s("https://api.x.com/v1"), key: s(""), ..Default::default() }),
        ..Default::default()
    };
    let pairs = cfg.env_pairs();
    assert_eq!(pairs.len(), 1);
    assert_eq!(pairs[0].0, "CONGA_LLM_BASE_URL");
}

#[test]
fn false_bool_serializes_as_zero() {
    let cfg = ConfigFile {
        tools: Some(ToolsSection { sandbox: Some(false), fetch_allow_private_net: Some(true), ..Default::default() }),
        ..Default::default()
    };
    let pairs = cfg.env_pairs();
    let get = |k: &str| pairs.iter().find(|(n, _)| n == k).unwrap().1.clone();
    assert_eq!(get("CONGA_SANDBOX"), "0");
    assert_eq!(get("CONGA_FETCH_ALLOW_PRIVATE_NET"), "1");
}

#[test]
fn overlay_env_wins_and_unset_gets_set() {
    let pairs = vec![
        ("CONGA_LLM_MODEL".to_string(), "file-model".to_string()),
        ("CONGA_MAX_TURNS".to_string(), "9".to_string()),
    ];
    // CONGA_LLM_MODEL is already set in the environment.
    let set = overlay(&pairs, &vec![true, false]);
    assert_eq!(set, vec![("CONGA_MAX_TURNS".to_string(), "9".to_string())]);
}

#[test]
fn discover_order_explicit_project_home() {
    let found = discover(Some("/tmp/explicit.toml"), true, ".conga/config.toml", true, Some("/tmp/home"), true).unwrap();
    assert_eq!(found.as_deref(), Some("/tmp/explicit.toml"));
    let found = discover(None, false, ".conga/config.toml", true, Some("/tmp/home"), true).unwrap();
    assert_eq!(found.as_deref(), Some(".conga/config.toml"));
    let found = discover(None, false, "/tmp/no-such", false, Some("/tmp/home"), true).unwrap();
    assert_eq!(found.as_deref(), Some("/tmp/home/.conga/config.toml"));
    assert!(discover(None, false, "/tmp/no-such", false, Some("/tmp/empty-home"), false).unwrap().is_none());
}

#[test]
fn discover_fails_loud_when_explicit_missing() {
    let err = discover(Some("/tmp/no-such-config.toml"), false, "no-such", false, None, false).unwrap_err();
    assert!(matches!(err, ConfigFileError::ExplicitMissing(_)));
    let msg = err.message();
    assert!(msg.contains("CONGA_CONFIG"), "must name the var: {msg}");
    assert!(msg.contains("no-such-config.toml"), "must name the path: {msg}");
}
