use conga_core::ext::{
    cap_chars, note_path, prod_register, register_all, remember_args, search_k, search_query,
    search_source, slugify, ExtFeatures, ExtensionApiImpl, ToolSpec, MAX_CONTENT_CHARS, MAX_HIT_CHARS,
    MAX_TITLE_CHARS,
};
use conga_core::tool::RiskLevel;

const ALL: ExtFeatures = ExtFeatures { rag: true, terminal: true };

fn registered_tool_named(name: &str) -> ToolSpec {
    let mut api = ExtensionApiImpl::new();
    prod_register(&mut api, ALL);
    api.tools
        .into_iter()
        .find(|t| t.name == name)
        .unwrap_or_else(|| panic!("{name} registered"))
}

#[test]
fn prod_register_has_search_only() {
    let mut api = ExtensionApiImpl::new();
    prod_register(&mut api, ALL);
    let names: Vec<_> = api.tools.iter().map(|t| t.name.clone()).collect();
    let expected: Vec<&str> = vec!["web_search", "rag_search", "rag_remember", "terminal"];
    assert_eq!(names, expected);
}

#[test]
fn terminal_tool_is_high_risk() {
    let mut api = ExtensionApiImpl::new();
    register_all(&mut api, ALL);
    let terminal = api
        .tools
        .iter()
        .find(|t| t.name == "terminal")
        .expect("terminal tool registered");
    assert_eq!(terminal.risk, RiskLevel::High);
}

#[test]
fn register_exposes_rag_search_with_low_risk() {
    let tool = registered_tool_named("rag_search");
    assert!(matches!(tool.risk, RiskLevel::Low));
    let params: serde_json::Value = serde_json::from_str(&tool.parameters).unwrap();
    assert!(params["properties"]["query"].is_object());
    assert_eq!(params["required"][0], "query");
}

#[test]
fn register_exposes_rag_remember_with_medium_risk() {
    let tool = registered_tool_named("rag_remember");
    assert!(matches!(tool.risk, RiskLevel::Medium));
    let params: serde_json::Value = serde_json::from_str(&tool.parameters).unwrap();
    assert_eq!(params["required"][0], "title");
    assert_eq!(params["required"][1], "content");
}

#[test]
fn cap_chars_is_char_safe() {
    let s = "中".repeat(2000);
    let out = cap_chars(&s, MAX_HIT_CHARS);
    assert!(out.chars().count() <= MAX_HIT_CHARS + 20);
    assert!(out.contains("…"));
    let short = "短".repeat(10);
    assert_eq!(cap_chars(&short, MAX_HIT_CHARS), short);
}

#[test]
fn slugify_keeps_cjk_and_collapses_separators() {
    assert_eq!(slugify("  架构 分层!设计 "), "架构-分层-设计");
    assert_eq!(slugify("A/B\\C:D"), "A-B-C-D");
    assert!(slugify("!!!").is_empty());
}

#[test]
fn registering_keeps_earlier_tools_first() {
    let mut api = ExtensionApiImpl::new();
    api.register_tool(registered_tool_named("terminal"));
    prod_register(&mut api, ALL);
    let names: Vec<_> = api.tools.iter().map(|t| t.name.as_str()).collect();
    assert_eq!(names, vec!["terminal", "web_search", "rag_search", "rag_remember", "terminal"]);
    // Wherever the terminal stands, it is High.
    assert!(api.tools.iter().filter(|t| t.name == "terminal").all(|t| t.risk == RiskLevel::High));
}

#[test]
fn search_k_defaults_and_caps() {
    assert_eq!(search_k(None, 6), 6);
    assert_eq!(search_k(Some(3), 6), 3);
    assert_eq!(search_k(Some(500), 6), 20);
}

#[test]
fn search_query_rejects_blank() {
    assert!(search_query(Some("  ")).is_err());
    assert!(search_query(None).is_err());
    assert_eq!(search_query(Some("  架构  ")).unwrap(), "架构");
}

#[test]
fn search_source_blank_means_all() {
    assert_eq!(search_source(Some("notes")), Some("notes".to_string()));
    assert_eq!(search_source(Some("")), None);
    assert_eq!(search_source(None), None);
}

#[test]
fn remember_rejects_blank_and_oversize_title_and_content() {
    assert!(remember_args(Some("  "), Some("x")).is_err());
    assert!(remember_args(Some("t"), Some("")).is_err());
    let long_content = "中".repeat(MAX_CONTENT_CHARS + 1);
    assert!(remember_args(Some("t"), Some(&long_content)).is_err());
    let long_title = "字".repeat(MAX_TITLE_CHARS + 1);
    assert!(remember_args(Some(&long_title), Some("x")).is_err());
    let ok = remember_args(Some(" t "), Some(" body ")).unwrap();
    assert_eq!(ok, ("t".to_string(), "body".to_string()));
    let title_err = remember_args(None, Some("x")).unwrap_err();
    assert_eq!(title_err, "title 不能为空且不超过 80 字符");
    let content_err = remember_args(Some("t"), None).unwrap_err();
    assert_eq!(content_err, "content 不能为空且不超过 8000 字符");
}

#[test]
fn note_path_uses_the_slug() {
    let p = note_path("/home/u/.conga/notes", "架构 分层");
    assert_eq!(p, "/home/u/.conga/notes/架构-分层.md");
}

#[test]
fn builds_without_optional_features_register_fewer_tools() {
    let names = |f: ExtFeatures| {
        let mut api = ExtensionApiImpl::new();
        prod_register(&mut api, f);
        api.tools.iter().map(|t| t.name.clone()).collect::<Vec<_>>()
    };
    assert_eq!(names(ExtFeatures { rag: false, terminal: false }), vec!["web_search"]);
    assert_eq!(names(ExtFeatures { rag: true, terminal: false }), vec!["web_search", "rag_search", "rag_remember"]);
    assert_eq!(names(ExtFeatures { rag: false, terminal: true }), vec!["web_search", "terminal"]);
}
