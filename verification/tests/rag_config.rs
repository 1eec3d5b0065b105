use conga_core::rag_config::{builtin_base, expand_path, RagConfig, RagEnv, SourceConfig};

fn no_env() -> RagEnv {
    RagEnv {
        embed_base_url: None,
        embed_key: None,
        embed_model: None,
        embed_batch: None,
        embed_min_interval_ms: None,
        store_path: None,
    }
}

/// The configuration of the file used by the retrieval tests: one `notes`
/// directory source, an explicit embedding endpoint and chunking.
fn sample() -> RagConfig {
    let mut cfg = RagConfig::default();
    let mut notes = SourceConfig::default();
    notes.path = "/tmp/notes".to_string();
    notes.includes = vec!["**/*.md".to_string()];
    notes.exclude = vec!["**/drafts/**".to_string()];
    cfg.sources.insert("notes".to_string(), notes);
    cfg.embedding.base_url = Some("https://api.example.com/v1".to_string());
    cfg.embedding.api_key = Some("k1".to_string());
    cfg.embedding.model = Some("emb-1".to_string());
    cfg.embedding.batch = 8;
    cfg.chunking.target_chars = 500;
    cfg.chunking.overlap_chars = 50;
    cfg
}

fn source(path: &str) -> SourceConfig {
    let mut s = SourceConfig::default();
    s.path = path.to_string();
    s
}

#[test]
fn defaults_match_the_documented_values() {
    let cfg = RagConfig::default();
    assert_eq!(cfg.ask.top_k, 6);
    assert_eq!(cfg.embedding.batch, 64);
    assert_eq!(cfg.chunking.target_chars, 1200);
    assert_eq!(cfg.chunking.overlap_chars, 200);
    assert_eq!(SourceConfig::default().kind, "dir");
}

#[test]
fn resolve_embedding_uses_config_values() {
    let cfg = sample();
    let r = cfg.resolve_embedding(None, None).unwrap();
    assert_eq!(r.base_url, "https://api.example.com/v1");
    assert_eq!(r.batch, 8);
}

#[test]
fn embedding_falls_back_to_conga_llm_env() {
    let mut cfg = RagConfig::default();
    cfg.embedding.model = Some("emb-1".to_string());
    let r = cfg.resolve_embedding(Some("https://fb.example.com/v1"), Some("fb-key")).unwrap();
    assert_eq!(r.base_url, "https://fb.example.com/v1");
    assert_eq!(r.api_key, "fb-key");
}

#[test]
fn env_overrides_file() {
    let env = RagEnv {
        embed_model: Some("env-model".to_string()),
        embed_batch: Some("3".to_string()),
        embed_min_interval_ms: Some("1500".to_string()),
        ..no_env()
    };
    let mut cfg = sample();
    cfg.apply_env(&env).unwrap();
    let r = cfg.resolve_embedding(Some("https://fb.example.com/v1"), Some("fb-key")).unwrap();
    assert_eq!(r.model, "env-model");
    assert_eq!(r.batch, 3);
    assert_eq!(r.min_interval_ms, 1500);
}

#[test]
fn discover_fails_loud_when_env_config_missing() {
    let err = RagConfig::discover(Some("/tmp/x/no-such-rag.toml"), false, true, Some("/h"), true).unwrap_err();
    assert!(err.contains("CONGA_RAG_CONFIG"), "must name the var: {err}");
    assert!(err.contains("no-such-rag.toml"), "must name the path: {err}");
}

#[test]
fn discover_order_explicit_cwd_home() {
    assert_eq!(RagConfig::discover(Some("/e.toml"), true, true, Some("/h"), true).unwrap(), Some("/e.toml".to_string()));
    assert_eq!(RagConfig::discover(None, false, true, Some("/h"), true).unwrap(), Some("rag.toml".to_string()));
    assert_eq!(RagConfig::discover(None, false, false, Some("/h"), true).unwrap(), Some("/h/.conga/rag.toml".to_string()));
    assert_eq!(RagConfig::discover(None, false, false, Some("/h"), false).unwrap(), None);
    assert_eq!(RagConfig::discover(None, false, false, None, true).unwrap(), None);
}

#[test]
fn apply_env_rejects_unparsable_batch() {
    let env = RagEnv { embed_batch: Some("not-a-number".to_string()), ..no_env() };
    let mut cfg = sample();
    let msg = cfg.apply_env(&env).unwrap_err();
    assert!(msg.contains("CONGA_RAG_EMBED_BATCH"), "must name the var: {msg}");
    assert!(msg.contains("not-a-number"), "must include the value: {msg}");
    assert_eq!(msg, "CONGA_RAG_EMBED_BATCH 值无法解析为 usize: \"not-a-number\"");
}

#[test]
fn apply_env_bad_interval_keeps_earlier_overrides() {
    let env = RagEnv {
        embed_model: Some("m2".to_string()),
        embed_min_interval_ms: Some("-1".to_string()),
        store_path: Some("/tmp/s.db".to_string()),
        ..no_env()
    };
    let mut cfg = sample();
    let msg = cfg.apply_env(&env).unwrap_err();
    assert_eq!(msg, "CONGA_RAG_EMBED_MIN_INTERVAL_MS 值无法解析为 u64: \"-1\"");
    assert_eq!(cfg.embedding.model.as_deref(), Some("m2"));
    assert_eq!(cfg.store.path, None);
}

#[test]
fn missing_model_and_url_is_error() {
    let cfg = RagConfig::default();
    assert!(cfg.resolve_embedding(None, None).is_err());
    assert_eq!(cfg.resolve_embedding(None, None).unwrap_err(), "embedding.base_url 未配置且 CONGA_LLM_BASE_URL 未设置");
    assert_eq!(cfg.resolve_embedding(Some("u"), None).unwrap_err(), "embedding.api_key 未配置且 CONGA_LLM_KEY 未设置");
    assert_eq!(cfg.resolve_embedding(Some("u"), Some("k")).unwrap_err(), "embedding.model 未配置");
}

#[test]
fn validation_rejects_bad_chunking_and_empty_sources() {
    let cfg = RagConfig::default();
    assert!(cfg.validate().is_err(), "empty sources");
    let cfg2 = sample();
    assert!(cfg2.validate().is_ok());
    let mut cfg3 = sample();
    cfg3.chunking.overlap_chars = 600;
    assert!(cfg3.validate().is_err(), "overlap must be < target");
    assert_eq!(cfg3.validate().unwrap_err(), "chunking.overlap_chars(600) 必须小于 target_chars(500)");
}

#[test]
fn validation_names_the_first_bad_source() {
    let mut cfg = sample();
    let mut web = source("/w");
    web.kind = "web".to_string();
    cfg.sources.insert("a-web".to_string(), web);
    cfg.sources.insert("b-empty".to_string(), source(""));
    assert_eq!(cfg.validate().unwrap_err(), "源 a-web: 首期仅支持 type = \"dir\"");
    let mut zero = sample();
    zero.embedding.batch = 0;
    assert_eq!(zero.validate().unwrap_err(), "embedding.batch 必须 > 0");
}

#[test]
fn store_path_defaults_into_conga_home() {
    let cfg = RagConfig::default();
    let p = cfg.store_path(Some("/home/u"));
    assert!(p.contains("rag"));
    assert!(p.ends_with("index.db"));
    assert_eq!(p, "/home/u/.conga/rag/index.db");
    let moved = RagConfig::default().with_store_path("/x.db".to_string());
    assert_eq!(moved.store_path(Some("/home/u")), "/x.db");
}

#[test]
fn expand_tilde_rewrites_sources_and_store() {
    let mut cfg = RagConfig::default();
    cfg.sources.insert("docs".to_string(), source("~/docs"));
    cfg.sources.insert("abs".to_string(), source("/abs"));
    cfg.store.path = Some("~/idx.db".to_string());
    cfg.expand_tilde(Some("/home/u"));
    assert_eq!(cfg.sources.get("docs").unwrap().path, "/home/u/docs");
    assert_eq!(cfg.sources.get("abs").unwrap().path, "/abs");
    assert_eq!(cfg.store.path.as_deref(), Some("/home/u/idx.db"));
    assert_eq!(expand_path("~/x", None), "~/x");
}

#[test]
fn inject_builtins_adds_only_existing_dirs() {
    let mut cfg = RagConfig::default();
    cfg.sources.insert("docs".to_string(), source("/tmp/base/docs"));
    cfg.inject_builtins_in("/tmp/base", true, false);
    assert!(cfg.sources.contains_key("notes"));
    assert!(!cfg.sources.contains_key("memory"));
    assert_eq!(cfg.sources.get("notes").unwrap().path, "/tmp/base/notes");
    assert_eq!(cfg.sources.get("notes").unwrap().kind, "dir");
}

#[test]
fn inject_builtins_respects_name_ownership() {
    let mut cfg = RagConfig::default();
    cfg.sources.insert("notes".to_string(), source("/tmp/base/my-notes"));
    cfg.inject_builtins_in("/tmp/base", true, true);
    assert_eq!(cfg.sources.get("notes").unwrap().path, "/tmp/base/my-notes");
    assert!(cfg.sources.contains_key("memory"));
}

#[test]
fn inject_builtins_is_idempotent() {
    let mut cfg = RagConfig::default();
    cfg.inject_builtins_in("/tmp/base", true, false);
    cfg.inject_builtins_in("/tmp/base", true, false);
    assert_eq!(cfg.sources.len(), 1);
}

#[test]
fn builtin_base_blank_disables_builtins() {
    assert_eq!(builtin_base(Some("  "), "/h/.conga"), None);
    assert_eq!(builtin_base(Some("/b"), "/h/.conga"), Some("/b".to_string()));
    assert_eq!(builtin_base(None, "/h/.conga"), Some("/h/.conga".to_string()));
    let mut cfg = RagConfig::default();
    cfg.inject_builtins(None, true, true);
    assert!(cfg.sources.is_empty());
}
