//! `config.toml`: the file-based base configuration, layered under the
//! environment.
//!
//! Layering, lowest to highest: the file, then `.env`, then the real
//! process environment (a variable is only ever set from the file when it
//! is unset). Discovery: `CONGA_CONFIG` (an error when that file is
//! missing), then the project's `.conga/config.toml`, then
//! `{home}/.conga/config.toml`; the first existing file wins, and no file
//! at all means environment-only start-up.
//!
//! Each section flattens to `CONGA_*` variables; an empty string value is
//! unset, a number is written in decimal, a boolean as `1` or `0`.

use vstd::prelude::*;
use crate::decimal::{dec, u64_to_decimal};
use crate::paths::{join_path, path_join};

verus! {

/// A failure to load `config.toml`.
#[derive(Debug)]
pub enum ConfigFileError {
    /// `CONGA_CONFIG` names a file that does not exist.
    ExplicitMissing(String),
    /// The file exists but could not be read.
    Read { path: String, source: String },
    /// The file is not a valid configuration (unknown key or bad value).
    Parse { path: String, source: String },
}

impl ConfigFileError {
    /// The human-readable message.
    pub fn message(&self) -> (r: String)
        ensures
            r@ == match self {
                ConfigFileError::ExplicitMissing(p) => "CONGA_CONFIG is set but the file does not exist: "@
                    + p@,
                ConfigFileError::Read { path, source } => "cannot read config file "@ + path@ + ": "@
                    + source@,
                ConfigFileError::Parse { path, source } => "invalid config.toml "@ + path@
                    + " (unknown key or bad value): "@ + source@,
            },
    {
        match self {
            ConfigFileError::ExplicitMissing(p) => {
                let mut s = "CONGA_CONFIG is set but the file does not exist: ".to_owned();
                s.append(p.as_str());
                s
            },
            ConfigFileError::Read { path, source } => {
                let mut s = "cannot read config file ".to_owned();
                s.append(path.as_str());
                s.append(": ");
                s.append(source.as_str());
                s
            },
            ConfigFileError::Parse { path, source } => {
                let mut s = "invalid config.toml ".to_owned();
                s.append(path.as_str());
                s.append(" (unknown key or bad value): ");
                s.append(source.as_str());
                s
            },
        }
    }
}

/// Environment pairs as values.
pub open spec fn pairs_view(v: Seq<(String, String)>) -> Seq<(Seq<char>, Seq<char>)> {
    v.map_values(|p: (String, String)| (p.0@, p.1@))
}

/// A string key: set when present and non-empty.
pub open spec fn str_pair(name: Seq<char>, v: Option<String>) -> Seq<(Seq<char>, Seq<char>)> {
    match v {
        Some(s) => if s@.len() > 0 {
            seq![(name, s@)]
        } else {
            seq![]
        },
        None => seq![],
    }
}

/// A numeric key: set when present, in decimal.
pub open spec fn num_pair(name: Seq<char>, v: Option<u64>) -> Seq<(Seq<char>, Seq<char>)> {
    match v {
        Some(n) => seq![(name, dec(n as nat))],
        None => seq![],
    }
}

/// A boolean key: set when present, as `1` or `0`.
pub open spec fn bool_pair(name: Seq<char>, v: Option<bool>) -> Seq<(Seq<char>, Seq<char>)> {
    match v {
        Some(b) => seq![(name, if b { "1"@ } else { "0"@ })],
        None => seq![],
    }
}

proof fn lemma_push_view(v: Seq<(String, String)>, p: (String, String))
    ensures
        pairs_view(v.push(p)) == pairs_view(v).push((p.0@, p.1@)),
{
    assert(pairs_view(v.push(p)) =~= pairs_view(v).push((p.0@, p.1@)));
}

fn push_str(out: &mut Vec<(String, String)>, name: &str, value: &Option<String>)
    ensures
        pairs_view(final(out)@) == pairs_view(old(out)@) + str_pair(name@, *value),
{
    let ghost before = out@;
    if let Some(v) = value {
        if !v.as_str().is_empty() {
            let p = (name.to_owned(), v.clone());
            out.push(p);
            proof {
                lemma_push_view(before, p);
            }
            assert(v@.len() > 0);
            return ;
        }
    }
    assert(pairs_view(out@) =~= pairs_view(before) + str_pair(name@, *value));
}

fn push_num(out: &mut Vec<(String, String)>, name: &str, value: &Option<u64>)
    ensures
        pairs_view(final(out)@) == pairs_view(old(out)@) + num_pair(name@, *value),
{
    let ghost before = out@;
    if let Some(v) = value {
        let p = (name.to_owned(), u64_to_decimal(*v));
        out.push(p);
        proof {
            lemma_push_view(before, p);
        }
    } else {
        assert(pairs_view(out@) =~= pairs_view(before) + num_pair(name@, *value));
    }
}

fn push_bool(out: &mut Vec<(String, String)>, name: &str, value: &Option<bool>)
    ensures
        pairs_view(final(out)@) == pairs_view(old(out)@) + bool_pair(name@, *value),
{
    let ghost before = out@;
    if let Some(v) = value {
        let text = if *v {
            "1"
        } else {
            "0"
        };
        let p = (name.to_owned(), text.to_owned());
        out.push(p);
        proof {
            lemma_push_view(before, p);
        }
    } else {
        assert(pairs_view(out@) =~= pairs_view(before) + bool_pair(name@, *value));
    }
}

fn suffixed(prefix: &str, suffix: &str) -> (r: String)
    ensures
        r@ == prefix@ + suffix@,
{
    let mut s = prefix.to_owned();
    s.append(suffix);
    s
}

/// `[llm]` / `[fast_llm]`: an endpoint.
#[derive(Debug, Default)]
pub struct LlmSection {
    pub base_url: Option<String>,
    pub key: Option<String>,
    pub model: Option<String>,
    /// `openai` (the default) or `anthropic`.
    pub api: Option<String>,
}

impl LlmSection {
    /// The variables under `prefix` (`{prefix}_BASE_URL`, `_KEY`, `_MODEL`, `_API`).
    pub open spec fn pairs(self, prefix: Seq<char>) -> Seq<(Seq<char>, Seq<char>)> {
        str_pair(prefix + "_BASE_URL"@, self.base_url) + str_pair(prefix + "_KEY"@, self.key)
            + str_pair(prefix + "_MODEL"@, self.model) + str_pair(prefix + "_API"@, self.api)
    }

    fn push(&self, out: &mut Vec<(String, String)>, prefix: &str)
        ensures
            pairs_view(final(out)@) == pairs_view(old(out)@) + self.pairs(prefix@),
    {
        let ghost before = pairs_view(out@);
        push_str(out, suffixed(prefix, "_BASE_URL").as_str(), &self.base_url);
        push_str(out, suffixed(prefix, "_KEY").as_str(), &self.key);
        push_str(out, suffixed(prefix, "_MODEL").as_str(), &self.model);
        push_str(out, suffixed(prefix, "_API").as_str(), &self.api);
        assert(pairs_view(out@) =~= before + self.pairs(prefix@));
    }
}

/// `[proxy]`: egress proxies.
#[derive(Debug, Default)]
pub struct ProxySection {
    /// The LLM egress proxy for both http and https.
    pub llm: Option<String>,
    pub llm_http: Option<String>,
    pub llm_https: Option<String>,
    /// The proxy for tool traffic (fetch, web search).
    pub tool: Option<String>,
}

impl ProxySection {
    /// The `(variable, value)` pairs of this section, unset and empty keys skipped.
    pub open spec fn pairs(self) -> Seq<(Seq<char>, Seq<char>)> {
        str_pair("CONGA_LLM_PROXY"@, self.llm) + str_pair("CONGA_LLM_HTTP_PROXY"@, self.llm_http)
            + str_pair("CONGA_LLM_HTTPS_PROXY"@, self.llm_https) + str_pair(
            "CONGA_TOOL_PROXY"@,
            self.tool,
        )
    }

    fn push(&self, out: &mut Vec<(String, String)>)
        ensures
            pairs_view(final(out)@) == pairs_view(old(out)@) + self.pairs(),
    {
        let ghost before = pairs_view(out@);
        push_str(out, "CONGA_LLM_PROXY", &self.llm);
        push_str(out, "CONGA_LLM_HTTP_PROXY", &self.llm_http);
        push_str(out, "CONGA_LLM_HTTPS_PROXY", &self.llm_https);
        push_str(out, "CONGA_TOOL_PROXY", &self.tool);
        assert(pairs_view(out@) =~= before + self.pairs());
    }
}

/// `[tunables]`: agent loop limits and retry timing.
#[derive(Debug, Default)]
pub struct TunablesSection {
    pub max_turns: Option<u64>,
    pub max_tool_calls: Option<u64>,
    pub max_tokens: Option<u64>,
    pub retry_max: Option<u64>,
    pub retry_initial_ms: Option<u64>,
    pub retry_max_ms: Option<u64>,
    pub tool_timeout_s: Option<u64>,
}

impl TunablesSection {
    /// The `(variable, value)` pairs of this section, unset and empty keys skipped.
    pub open spec fn pairs(self) -> Seq<(Seq<char>, Seq<char>)> {
        num_pair("CONGA_MAX_TURNS"@, self.max_turns) + num_pair(
            "CONGA_MAX_TOOL_CALLS"@,
            self.max_tool_calls,
        ) + num_pair("CONGA_MAX_TOKENS"@, self.max_tokens) + num_pair(
            "CONGA_RETRY_MAX"@,
            self.retry_max,
        ) + num_pair("CONGA_RETRY_INITIAL_MS"@, self.retry_initial_ms) + num_pair(
            "CONGA_RETRY_MAX_MS"@,
            self.retry_max_ms,
        ) + num_pair("CONGA_TOOL_TIMEOUT_S"@, self.tool_timeout_s)
    }

    fn push(&self, out: &mut Vec<(String, String)>)
        ensures
            pairs_view(final(out)@) == pairs_view(old(out)@) + self.pairs(),
    {
        let ghost before = pairs_view(out@);
        push_num(out, "CONGA_MAX_TURNS", &self.max_turns);
        push_num(out, "CONGA_MAX_TOOL_CALLS", &self.max_tool_calls);
        push_num(out, "CONGA_MAX_TOKENS", &self.max_tokens);
        push_num(out, "CONGA_RETRY_MAX", &self.retry_max);
        push_num(out, "CONGA_RETRY_INITIAL_MS", &self.retry_initial_ms);
        push_num(out, "CONGA_RETRY_MAX_MS", &self.retry_max_ms);
        push_num(out, "CONGA_TOOL_TIMEOUT_S", &self.tool_timeout_s);
        assert(pairs_view(out@) =~= before + self.pairs());
    }
}

/// The value that `ps` gives the variable `name`: that of its first pair
/// naming it, if any.
pub open spec fn value_of(ps: Seq<(Seq<char>, Seq<char>)>, name: Seq<char>) -> Option<Seq<char>>
    decreases ps.len(),
{
    if ps.len() == 0 {
        None
    } else if ps[0].0 == name {
        Some(ps[0].1)
    } else {
        value_of(ps.drop_first(), name)
    }
}

/// The decimal of a number, when there is one.
pub open spec fn decimal_of(v: Option<u64>) -> Option<Seq<char>> {
    match v {
        Some(n) => Some(dec(n as nat)),
        None => None,
    }
}

proof fn lemma_value_of_concat(x: Seq<(Seq<char>, Seq<char>)>, y: Seq<(Seq<char>, Seq<char>)>)
    ensures
        forall|name: Seq<char>|
            #[trigger] value_of(x + y, name) == match value_of(x, name) {
                Some(v) => Some(v),
                None => value_of(y, name),
            },
    decreases x.len(),
{
    if x.len() > 0 {
        lemma_value_of_concat(x.drop_first(), y);
        assert((x + y).drop_first() =~= x.drop_first() + y);
        assert((x + y)[0] == x[0]);
        assert forall|name: Seq<char>| #[trigger] value_of(x + y, name) == match value_of(x, name) {
            Some(v) => Some(v),
            None => value_of(y, name),
        } by {
            assert(value_of(x.drop_first() + y, name) == match value_of(x.drop_first(), name) {
                Some(v) => Some(v),
                None => value_of(y, name),
            });
        }
    } else {
        assert(x + y =~= y);
    }
}

proof fn lemma_value_of_pair(n: Seq<char>, v: Option<u64>)
    ensures
        forall|q: Seq<char>| #[trigger] value_of(num_pair(n, v), q) == if n == q {
            decimal_of(v)
        } else {
            None
        },
{
    assert forall|q: Seq<char>| #[trigger] value_of(num_pair(n, v), q) == if n == q {
        decimal_of(v)
    } else {
        None
    } by {
        if v is Some {
            assert(num_pair(n, v).drop_first().len() == 0);
            assert(value_of(num_pair(n, v).drop_first(), q) is None);
        }
    }
}

/// Each `[tunables]` key is written to its own variable: the value the
/// section's pairs give `CONGA_RETRY_INITIAL_MS` is the decimal of
/// `retry_initial_ms` (unset when the key is), that of `CONGA_RETRY_MAX_MS`
/// the decimal of `retry_max_ms`, and so on for every key.
pub proof fn lemma_tunables_variables(t: TunablesSection)
    ensures
        value_of(t.pairs(), "CONGA_MAX_TURNS"@) == decimal_of(t.max_turns),
        value_of(t.pairs(), "CONGA_MAX_TOOL_CALLS"@) == decimal_of(t.max_tool_calls),
        value_of(t.pairs(), "CONGA_MAX_TOKENS"@) == decimal_of(t.max_tokens),
        value_of(t.pairs(), "CONGA_RETRY_MAX"@) == decimal_of(t.retry_max),
        value_of(t.pairs(), "CONGA_RETRY_INITIAL_MS"@) == decimal_of(t.retry_initial_ms),
        value_of(t.pairs(), "CONGA_RETRY_MAX_MS"@) == decimal_of(t.retry_max_ms),
        value_of(t.pairs(), "CONGA_TOOL_TIMEOUT_S"@) == decimal_of(t.tool_timeout_s),
{
    let n0 = "CONGA_MAX_TURNS"@;
    let n1 = "CONGA_MAX_TOOL_CALLS"@;
    let n2 = "CONGA_MAX_TOKENS"@;
    let n3 = "CONGA_RETRY_MAX"@;
    let n4 = "CONGA_RETRY_INITIAL_MS"@;
    let n5 = "CONGA_RETRY_MAX_MS"@;
    let n6 = "CONGA_TOOL_TIMEOUT_S"@;
    reveal_strlit("CONGA_MAX_TURNS");
    reveal_strlit("CONGA_MAX_TOOL_CALLS");
    reveal_strlit("CONGA_MAX_TOKENS");
    reveal_strlit("CONGA_RETRY_MAX");
    reveal_strlit("CONGA_RETRY_INITIAL_MS");
    reveal_strlit("CONGA_RETRY_MAX_MS");
    reveal_strlit("CONGA_TOOL_TIMEOUT_S");
    // Names of different lengths differ; the two of equal length differ in
    // their seventh character.
    assert(n0.len() == 15 && n1.len() == 20 && n2.len() == 16 && n3.len() == 15);
    assert(n4.len() == 22 && n5.len() == 18 && n6.len() == 20);
    assert(n0[6] != n3[6]);
    assert(n1[10] != n6[10]);
    let p0 = num_pair(n0, t.max_turns);
    let p1 = num_pair(n1, t.max_tool_calls);
    let p2 = num_pair(n2, t.max_tokens);
    let p3 = num_pair(n3, t.retry_max);
    let p4 = num_pair(n4, t.retry_initial_ms);
    let p5 = num_pair(n5, t.retry_max_ms);
    let p6 = num_pair(n6, t.tool_timeout_s);
    lemma_value_of_concat(p0, p1);
    lemma_value_of_concat(p0 + p1, p2);
    lemma_value_of_concat(p0 + p1 + p2, p3);
    lemma_value_of_concat(p0 + p1 + p2 + p3, p4);
    lemma_value_of_concat(p0 + p1 + p2 + p3 + p4, p5);
    lemma_value_of_concat(p0 + p1 + p2 + p3 + p4 + p5, p6);
    lemma_value_of_pair(n0, t.max_turns);
    lemma_value_of_pair(n1, t.max_tool_calls);
    lemma_value_of_pair(n2, t.max_tokens);
    lemma_value_of_pair(n3, t.retry_max);
    lemma_value_of_pair(n4, t.retry_initial_ms);
    lemma_value_of_pair(n5, t.retry_max_ms);
    lemma_value_of_pair(n6, t.tool_timeout_s);
    assert(t.pairs() == p0 + p1 + p2 + p3 + p4 + p5 + p6);
}

/// `[gateway]`: the web gateway.
#[derive(Debug, Default)]
pub struct GatewaySection {
    pub port: Option<u64>,
    pub host: Option<String>,
    /// suggest | auto-edit | full-auto | plan.
    pub mode: Option<String>,
    pub approval_timeout_s: Option<u64>,
    pub token: Option<String>,
    /// Comma-separated extra CORS origins.
    pub cors_origins: Option<String>,
}

impl GatewaySection {
    /// The `(variable, value)` pairs of this section, unset and empty keys skipped.
    pub open spec fn pairs(self) -> Seq<(Seq<char>, Seq<char>)> {
        num_pair("CONGA_GATEWAY_PORT"@, self.port) + str_pair("CONGA_GATEWAY_HOST"@, self.host)
            + str_pair("CONGA_GATEWAY_MODE"@, self.mode) + num_pair(
            "CONGA_APPROVAL_TIMEOUT_S"@,
            self.approval_timeout_s,
        ) + str_pair("CONGA_GATEWAY_TOKEN"@, self.token) + str_pair(
            "CONGA_GATEWAY_CORS_ORIGINS"@,
            self.cors_origins,
        )
    }

    fn push(&self, out: &mut Vec<(String, String)>)
        ensures
            pairs_view(final(out)@) == pairs_view(old(out)@) + self.pairs(),
    {
        let ghost before = pairs_view(out@);
        push_num(out, "CONGA_GATEWAY_PORT", &self.port);
        push_str(out, "CONGA_GATEWAY_HOST", &self.host);
        push_str(out, "CONGA_GATEWAY_MODE", &self.mode);
        push_num(out, "CONGA_APPROVAL_TIMEOUT_S", &self.approval_timeout_s);
        push_str(out, "CONGA_GATEWAY_TOKEN", &self.token);
        push_str(out, "CONGA_GATEWAY_CORS_ORIGINS", &self.cors_origins);
        assert(pairs_view(out@) =~= before + self.pairs());
    }
}

/// `[compact]`: context compaction.
#[derive(Debug, Default)]
pub struct CompactSection {
    pub context_window: Option<u64>,
    pub threshold_pct: Option<u64>,
    pub target_pct: Option<u64>,
    pub max_messages: Option<u64>,
}

impl CompactSection {
    /// The `(variable, value)` pairs of this section, unset and empty keys skipped.
    pub open spec fn pairs(self) -> Seq<(Seq<char>, Seq<char>)> {
        num_pair("CONGA_CONTEXT_WINDOW"@, self.context_window) + num_pair(
            "CONGA_COMPACT_THRESHOLD_PCT"@,
            self.threshold_pct,
        ) + num_pair("CONGA_COMPACT_TARGET_PCT"@, self.target_pct) + num_pair(
            "CONGA_COMPACT_MAX_MESSAGES"@,
            self.max_messages,
        )
    }

    fn push(&self, out: &mut Vec<(String, String)>)
        ensures
            pairs_view(final(out)@) == pairs_view(old(out)@) + self.pairs(),
    {
        let ghost before = pairs_view(out@);
        push_num(out, "CONGA_CONTEXT_WINDOW", &self.context_window);
        push_num(out, "CONGA_COMPACT_THRESHOLD_PCT", &self.threshold_pct);
        push_num(out, "CONGA_COMPACT_TARGET_PCT", &self.target_pct);
        push_num(out, "CONGA_COMPACT_MAX_MESSAGES", &self.max_messages);
        assert(pairs_view(out@) =~= before + self.pairs());
    }
}

/// `[tools]`: tool whitelists, MCP, fetch guard and sandbox.
#[derive(Debug, Default)]
pub struct ToolsSection {
    /// Comma-separated external command whitelist.
    pub external_tools: Option<String>,
    /// The MCP configuration file.
    pub mcp_config: Option<String>,
    pub mcp_call_timeout_s: Option<u64>,
    /// Disable the fetch tool's private-network guard (trusted LANs only).
    pub fetch_allow_private_net: Option<bool>,
    /// Run bash tool commands in a filesystem sandbox.
    pub sandbox: Option<bool>,
    /// Project directory: tool sandbox root and project skills base.
    pub project_dir: Option<String>,
}

impl ToolsSection {
    /// The `(variable, value)` pairs of this section, unset and empty keys skipped.
    pub open spec fn pairs(self) -> Seq<(Seq<char>, Seq<char>)> {
        str_pair("CONGA_EXTERNAL_TOOLS"@, self.external_tools) + str_pair(
            "CONGA_MCP_CONFIG"@,
            self.mcp_config,
        ) + num_pair("CONGA_MCP_CALL_TIMEOUT_S"@, self.mcp_call_timeout_s) + bool_pair(
            "CONGA_FETCH_ALLOW_PRIVATE_NET"@,
            self.fetch_allow_private_net,
        ) + bool_pair("CONGA_SANDBOX"@, self.sandbox) + str_pair(
            "CONGA_PROJECT_DIR"@,
            self.project_dir,
        )
    }

    fn push(&self, out: &mut Vec<(String, String)>)
        ensures
            pairs_view(final(out)@) == pairs_view(old(out)@) + self.pairs(),
    {
        let ghost before = pairs_view(out@);
        push_str(out, "CONGA_EXTERNAL_TOOLS", &self.external_tools);
        push_str(out, "CONGA_MCP_CONFIG", &self.mcp_config);
        push_num(out, "CONGA_MCP_CALL_TIMEOUT_S", &self.mcp_call_timeout_s);
        push_bool(out, "CONGA_FETCH_ALLOW_PRIVATE_NET", &self.fetch_allow_private_net);
        push_bool(out, "CONGA_SANDBOX", &self.sandbox);
        push_str(out, "CONGA_PROJECT_DIR", &self.project_dir);
        assert(pairs_view(out@) =~= before + self.pairs());
    }
}

/// `[search]`: the web search provider and its keys.
#[derive(Debug, Default)]
pub struct SearchSection {
    pub provider: Option<String>,
    pub brave_api_key: Option<String>,
    pub tavily_api_key: Option<String>,
    pub serper_api_key: Option<String>,
    pub serpapi_api_key: Option<String>,
    pub exa_api_key: Option<String>,
    pub firecrawl_api_key: Option<String>,
}

impl SearchSection {
    /// The `(variable, value)` pairs of this section, unset and empty keys skipped.
    pub open spec fn pairs(self) -> Seq<(Seq<char>, Seq<char>)> {
        str_pair("CONGA_SEARCH_PROVIDER"@, self.provider) + str_pair(
            "CONGA_BRAVE_API_KEY"@,
            self.brave_api_key,
        ) + str_pair("CONGA_TAVILY_API_KEY"@, self.tavily_api_key) + str_pair(
            "CONGA_SERPER_API_KEY"@,
            self.serper_api_key,
        ) + str_pair("CONGA_SERPAPI_API_KEY"@, self.serpapi_api_key) + str_pair(
            "CONGA_EXA_API_KEY"@,
            self.exa_api_key,
        ) + str_pair("CONGA_FIRECRAWL_API_KEY"@, self.firecrawl_api_key)
    }

    fn push(&self, out: &mut Vec<(String, String)>)
        ensures
            pairs_view(final(out)@) == pairs_view(old(out)@) + self.pairs(),
    {
        let ghost before = pairs_view(out@);
        push_str(out, "CONGA_SEARCH_PROVIDER", &self.provider);
        push_str(out, "CONGA_BRAVE_API_KEY", &self.brave_api_key);
        push_str(out, "CONGA_TAVILY_API_KEY", &self.tavily_api_key);
        push_str(out, "CONGA_SERPER_API_KEY", &self.serper_api_key);
        push_str(out, "CONGA_SERPAPI_API_KEY", &self.serpapi_api_key);
        push_str(out, "CONGA_EXA_API_KEY", &self.exa_api_key);
        push_str(out, "CONGA_FIRECRAWL_API_KEY", &self.firecrawl_api_key);
        assert(pairs_view(out@) =~= before + self.pairs());
    }
}

/// `[rag]`: the retrieval index.
#[derive(Debug, Default)]
pub struct RagSection {
    /// The retrieval configuration file (overrides `./rag.toml` discovery).
    pub config: Option<String>,
    pub embed_base_url: Option<String>,
    pub embed_key: Option<String>,
    pub embed_model: Option<String>,
    pub embed_batch: Option<u64>,
    pub store_path: Option<String>,
}

impl RagSection {
    /// The `(variable, value)` pairs of this section, unset and empty keys skipped.
    pub open spec fn pairs(self) -> Seq<(Seq<char>, Seq<char>)> {
        str_pair("CONGA_RAG_CONFIG"@, self.config) + str_pair(
            "CONGA_RAG_EMBED_BASE_URL"@,
            self.embed_base_url,
        ) + str_pair("CONGA_RAG_EMBED_KEY"@, self.embed_key) + str_pair(
            "CONGA_RAG_EMBED_MODEL"@,
            self.embed_model,
        ) + num_pair("CONGA_RAG_EMBED_BATCH"@, self.embed_batch) + str_pair(
            "CONGA_RAG_STORE_PATH"@,
            self.store_path,
        )
    }

    fn push(&self, out: &mut Vec<(String, String)>)
        ensures
            pairs_view(final(out)@) == pairs_view(old(out)@) + self.pairs(),
    {
        let ghost before = pairs_view(out@);
        push_str(out, "CONGA_RAG_CONFIG", &self.config);
        push_str(out, "CONGA_RAG_EMBED_BASE_URL", &self.embed_base_url);
        push_str(out, "CONGA_RAG_EMBED_KEY", &self.embed_key);
        push_str(out, "CONGA_RAG_EMBED_MODEL", &self.embed_model);
        push_num(out, "CONGA_RAG_EMBED_BATCH", &self.embed_batch);
        push_str(out, "CONGA_RAG_STORE_PATH", &self.store_path);
        assert(pairs_view(out@) =~= before + self.pairs());
    }
}

/// The text of a string key, when it is set and not empty.
pub open spec fn string_text(v: Option<String>) -> Option<Seq<char>> {
    match v {
        Some(t) => if t@.len() > 0 {
            Some(t@)
        } else {
            None
        },
        None => None,
    }
}

/// A flag as `1` or `0`, when it is set.
pub open spec fn flag_text(v: Option<bool>) -> Option<Seq<char>> {
    match v {
        Some(b) => Some(if b {
            "1"@
        } else {
            "0"@
        }),
        None => None,
    }
}

proof fn lemma_value_of_single(p: Seq<(Seq<char>, Seq<char>)>, n: Seq<char>)
    requires
        p.len() <= 1,
        p.len() == 1 ==> p[0].0 == n,
    ensures
        forall|q: Seq<char>| #[trigger] value_of(p, q) == if n == q && p.len() == 1 {
            Some(p[0].1)
        } else {
            None
        },
{
    assert forall|q: Seq<char>| #[trigger] value_of(p, q) == if n == q && p.len() == 1 {
        Some(p[0].1)
    } else {
        None
    } by {
        if p.len() == 1 {
            assert(p.drop_first().len() == 0);
            assert(value_of(p.drop_first(), q) is None);
        }
    }
}

proof fn lemma_value_of_str_pair(n: Seq<char>, v: Option<String>)
    ensures
        forall|q: Seq<char>| #[trigger] value_of(str_pair(n, v), q) == if n == q {
            string_text(v)
        } else {
            None
        },
{
    lemma_value_of_single(str_pair(n, v), n);
}

proof fn lemma_value_of_bool_pair(n: Seq<char>, v: Option<bool>)
    ensures
        forall|q: Seq<char>| #[trigger] value_of(bool_pair(n, v), q) == if n == q {
            flag_text(v)
        } else {
            None
        },
{
    lemma_value_of_single(bool_pair(n, v), n);
}

/// Each `[proxy]` key is written to its own variable: the value the
/// section's pairs give each variable is that of its own key (numbers in
/// decimal, flags as `1` or `0`, empty text as unset), and unset when the
/// key is.
pub proof fn lemma_proxy_variables(s: ProxySection)
    ensures
        value_of(s.pairs(), "CONGA_LLM_PROXY"@) == string_text(s.llm),
        value_of(s.pairs(), "CONGA_LLM_HTTP_PROXY"@) == string_text(s.llm_http),
        value_of(s.pairs(), "CONGA_LLM_HTTPS_PROXY"@) == string_text(s.llm_https),
        value_of(s.pairs(), "CONGA_TOOL_PROXY"@) == string_text(s.tool),
{
    reveal_strlit("CONGA_LLM_PROXY");
    reveal_strlit("CONGA_LLM_HTTP_PROXY");
    reveal_strlit("CONGA_LLM_HTTPS_PROXY");
    reveal_strlit("CONGA_TOOL_PROXY");
    assert("CONGA_LLM_PROXY"@.len() == 15);
    assert("CONGA_LLM_HTTP_PROXY"@.len() == 20);
    assert("CONGA_LLM_HTTPS_PROXY"@.len() == 21);
    assert("CONGA_TOOL_PROXY"@.len() == 16);
    let p0 = str_pair("CONGA_LLM_PROXY"@, s.llm);
    lemma_value_of_str_pair("CONGA_LLM_PROXY"@, s.llm);
    let p1 = str_pair("CONGA_LLM_HTTP_PROXY"@, s.llm_http);
    lemma_value_of_str_pair("CONGA_LLM_HTTP_PROXY"@, s.llm_http);
    let p2 = str_pair("CONGA_LLM_HTTPS_PROXY"@, s.llm_https);
    lemma_value_of_str_pair("CONGA_LLM_HTTPS_PROXY"@, s.llm_https);
    let p3 = str_pair("CONGA_TOOL_PROXY"@, s.tool);
    lemma_value_of_str_pair("CONGA_TOOL_PROXY"@, s.tool);
    lemma_value_of_concat(p0, p1);
    lemma_value_of_concat(p0 + p1, p2);
    lemma_value_of_concat(p0 + p1 + p2, p3);
    assert(s.pairs() == p0 + p1 + p2 + p3);
}

/// Each `[gateway]` key is written to its own variable: the value the
/// section's pairs give each variable is that of its own key (numbers in
/// decimal, flags as `1` or `0`, empty text as unset), and unset when the
/// key is.
pub proof fn lemma_gateway_variables(s: GatewaySection)
    ensures
        value_of(s.pairs(), "CONGA_GATEWAY_PORT"@) == decimal_of(s.port),
        value_of(s.pairs(), "CONGA_GATEWAY_HOST"@) == string_text(s.host),
        value_of(s.pairs(), "CONGA_GATEWAY_MODE"@) == string_text(s.mode),
        value_of(s.pairs(), "CONGA_APPROVAL_TIMEOUT_S"@) == decimal_of(s.approval_timeout_s),
        value_of(s.pairs(), "CONGA_GATEWAY_TOKEN"@) == string_text(s.token),
        value_of(s.pairs(), "CONGA_GATEWAY_CORS_ORIGINS"@) == string_text(s.cors_origins),
{
    reveal_strlit("CONGA_GATEWAY_PORT");
    reveal_strlit("CONGA_GATEWAY_HOST");
    reveal_strlit("CONGA_GATEWAY_MODE");
    reveal_strlit("CONGA_APPROVAL_TIMEOUT_S");
    reveal_strlit("CONGA_GATEWAY_TOKEN");
    reveal_strlit("CONGA_GATEWAY_CORS_ORIGINS");
    assert("CONGA_GATEWAY_PORT"@.len() == 18);
    assert("CONGA_GATEWAY_HOST"@.len() == 18);
    assert("CONGA_GATEWAY_MODE"@.len() == 18);
    assert("CONGA_APPROVAL_TIMEOUT_S"@.len() == 24);
    assert("CONGA_GATEWAY_TOKEN"@.len() == 19);
    assert("CONGA_GATEWAY_CORS_ORIGINS"@.len() == 26);
    assert("CONGA_GATEWAY_PORT"@[14] != "CONGA_GATEWAY_HOST"@[14]);
    assert("CONGA_GATEWAY_PORT"@[14] != "CONGA_GATEWAY_MODE"@[14]);
    assert("CONGA_GATEWAY_HOST"@[14] != "CONGA_GATEWAY_MODE"@[14]);
    let p0 = num_pair("CONGA_GATEWAY_PORT"@, s.port);
    lemma_value_of_pair("CONGA_GATEWAY_PORT"@, s.port);
    let p1 = str_pair("CONGA_GATEWAY_HOST"@, s.host);
    lemma_value_of_str_pair("CONGA_GATEWAY_HOST"@, s.host);
    let p2 = str_pair("CONGA_GATEWAY_MODE"@, s.mode);
    lemma_value_of_str_pair("CONGA_GATEWAY_MODE"@, s.mode);
    let p3 = num_pair("CONGA_APPROVAL_TIMEOUT_S"@, s.approval_timeout_s);
    lemma_value_of_pair("CONGA_APPROVAL_TIMEOUT_S"@, s.approval_timeout_s);
    let p4 = str_pair("CONGA_GATEWAY_TOKEN"@, s.token);
    lemma_value_of_str_pair("CONGA_GATEWAY_TOKEN"@, s.token);
    let p5 = str_pair("CONGA_GATEWAY_CORS_ORIGINS"@, s.cors_origins);
    lemma_value_of_str_pair("CONGA_GATEWAY_CORS_ORIGINS"@, s.cors_origins);
    lemma_value_of_concat(p0, p1);
    lemma_value_of_concat(p0 + p1, p2);
    lemma_value_of_concat(p0 + p1 + p2, p3);
    lemma_value_of_concat(p0 + p1 + p2 + p3, p4);
    lemma_value_of_concat(p0 + p1 + p2 + p3 + p4, p5);
    assert(s.pairs() == p0 + p1 + p2 + p3 + p4 + p5);
}

/// Each `[compact]` key is written to its own variable: the value the
/// section's pairs give each variable is that of its own key (numbers in
/// decimal, flags as `1` or `0`, empty text as unset), and unset when the
/// key is.
pub proof fn lemma_compact_variables(s: CompactSection)
    ensures
        value_of(s.pairs(), "CONGA_CONTEXT_WINDOW"@) == decimal_of(s.context_window),
        value_of(s.pairs(), "CONGA_COMPACT_THRESHOLD_PCT"@) == decimal_of(s.threshold_pct),
        value_of(s.pairs(), "CONGA_COMPACT_TARGET_PCT"@) == decimal_of(s.target_pct),
        value_of(s.pairs(), "CONGA_COMPACT_MAX_MESSAGES"@) == decimal_of(s.max_messages),
{
    reveal_strlit("CONGA_CONTEXT_WINDOW");
    reveal_strlit("CONGA_COMPACT_THRESHOLD_PCT");
    reveal_strlit("CONGA_COMPACT_TARGET_PCT");
    reveal_strlit("CONGA_COMPACT_MAX_MESSAGES");
    assert("CONGA_CONTEXT_WINDOW"@.len() == 20);
    assert("CONGA_COMPACT_THRESHOLD_PCT"@.len() == 27);
    assert("CONGA_COMPACT_TARGET_PCT"@.len() == 24);
    assert("CONGA_COMPACT_MAX_MESSAGES"@.len() == 26);
    let p0 = num_pair("CONGA_CONTEXT_WINDOW"@, s.context_window);
    lemma_value_of_pair("CONGA_CONTEXT_WINDOW"@, s.context_window);
    let p1 = num_pair("CONGA_COMPACT_THRESHOLD_PCT"@, s.threshold_pct);
    lemma_value_of_pair("CONGA_COMPACT_THRESHOLD_PCT"@, s.threshold_pct);
    let p2 = num_pair("CONGA_COMPACT_TARGET_PCT"@, s.target_pct);
    lemma_value_of_pair("CONGA_COMPACT_TARGET_PCT"@, s.target_pct);
    let p3 = num_pair("CONGA_COMPACT_MAX_MESSAGES"@, s.max_messages);
    lemma_value_of_pair("CONGA_COMPACT_MAX_MESSAGES"@, s.max_messages);
    lemma_value_of_concat(p0, p1);
    lemma_value_of_concat(p0 + p1, p2);
    lemma_value_of_concat(p0 + p1 + p2, p3);
    assert(s.pairs() == p0 + p1 + p2 + p3);
}

/// Each `[tools]` key is written to its own variable: the value the
/// section's pairs give each variable is that of its own key (numbers in
/// decimal, flags as `1` or `0`, empty text as unset), and unset when the
/// key is.
pub proof fn lemma_tools_variables(s: ToolsSection)
    ensures
        value_of(s.pairs(), "CONGA_EXTERNAL_TOOLS"@) == string_text(s.external_tools),
        value_of(s.pairs(), "CONGA_MCP_CONFIG"@) == string_text(s.mcp_config),
        value_of(s.pairs(), "CONGA_MCP_CALL_TIMEOUT_S"@) == decimal_of(s.mcp_call_timeout_s),
        value_of(s.pairs(), "CONGA_FETCH_ALLOW_PRIVATE_NET"@) == flag_text(s.fetch_allow_private_net),
        value_of(s.pairs(), "CONGA_SANDBOX"@) == flag_text(s.sandbox),
        value_of(s.pairs(), "CONGA_PROJECT_DIR"@) == string_text(s.project_dir),
{
    reveal_strlit("CONGA_EXTERNAL_TOOLS");
    reveal_strlit("CONGA_MCP_CONFIG");
    reveal_strlit("CONGA_MCP_CALL_TIMEOUT_S");
    reveal_strlit("CONGA_FETCH_ALLOW_PRIVATE_NET");
    reveal_strlit("CONGA_SANDBOX");
    reveal_strlit("CONGA_PROJECT_DIR");
    assert("CONGA_EXTERNAL_TOOLS"@.len() == 20);
    assert("CONGA_MCP_CONFIG"@.len() == 16);
    assert("CONGA_MCP_CALL_TIMEOUT_S"@.len() == 24);
    assert("CONGA_FETCH_ALLOW_PRIVATE_NET"@.len() == 29);
    assert("CONGA_SANDBOX"@.len() == 13);
    assert("CONGA_PROJECT_DIR"@.len() == 17);
    let p0 = str_pair("CONGA_EXTERNAL_TOOLS"@, s.external_tools);
    lemma_value_of_str_pair("CONGA_EXTERNAL_TOOLS"@, s.external_tools);
    let p1 = str_pair("CONGA_MCP_CONFIG"@, s.mcp_config);
    lemma_value_of_str_pair("CONGA_MCP_CONFIG"@, s.mcp_config);
    let p2 = num_pair("CONGA_MCP_CALL_TIMEOUT_S"@, s.mcp_call_timeout_s);
    lemma_value_of_pair("CONGA_MCP_CALL_TIMEOUT_S"@, s.mcp_call_timeout_s);
    let p3 = bool_pair("CONGA_FETCH_ALLOW_PRIVATE_NET"@, s.fetch_allow_private_net);
    lemma_value_of_bool_pair("CONGA_FETCH_ALLOW_PRIVATE_NET"@, s.fetch_allow_private_net);
    let p4 = bool_pair("CONGA_SANDBOX"@, s.sandbox);
    lemma_value_of_bool_pair("CONGA_SANDBOX"@, s.sandbox);
    let p5 = str_pair("CONGA_PROJECT_DIR"@, s.project_dir);
    lemma_value_of_str_pair("CONGA_PROJECT_DIR"@, s.project_dir);
    lemma_value_of_concat(p0, p1);
    lemma_value_of_concat(p0 + p1, p2);
    lemma_value_of_concat(p0 + p1 + p2, p3);
    lemma_value_of_concat(p0 + p1 + p2 + p3, p4);
    lemma_value_of_concat(p0 + p1 + p2 + p3 + p4, p5);
    assert(s.pairs() == p0 + p1 + p2 + p3 + p4 + p5);
}

/// Each `[search]` key is written to its own variable: the value the
/// section's pairs give each variable is that of its own key (numbers in
/// decimal, flags as `1` or `0`, empty text as unset), and unset when the
/// key is.
pub proof fn lemma_search_variables(s: SearchSection)
    ensures
        value_of(s.pairs(), "CONGA_SEARCH_PROVIDER"@) == string_text(s.provider),
        value_of(s.pairs(), "CONGA_BRAVE_API_KEY"@) == string_text(s.brave_api_key),
        value_of(s.pairs(), "CONGA_TAVILY_API_KEY"@) == string_text(s.tavily_api_key),
        value_of(s.pairs(), "CONGA_SERPER_API_KEY"@) == string_text(s.serper_api_key),
        value_of(s.pairs(), "CONGA_SERPAPI_API_KEY"@) == string_text(s.serpapi_api_key),
        value_of(s.pairs(), "CONGA_EXA_API_KEY"@) == string_text(s.exa_api_key),
        value_of(s.pairs(), "CONGA_FIRECRAWL_API_KEY"@) == string_text(s.firecrawl_api_key),
{
    reveal_strlit("CONGA_SEARCH_PROVIDER");
    reveal_strlit("CONGA_BRAVE_API_KEY");
    reveal_strlit("CONGA_TAVILY_API_KEY");
    reveal_strlit("CONGA_SERPER_API_KEY");
    reveal_strlit("CONGA_SERPAPI_API_KEY");
    reveal_strlit("CONGA_EXA_API_KEY");
    reveal_strlit("CONGA_FIRECRAWL_API_KEY");
    assert("CONGA_SEARCH_PROVIDER"@.len() == 21);
    assert("CONGA_BRAVE_API_KEY"@.len() == 19);
    assert("CONGA_TAVILY_API_KEY"@.len() == 20);
    assert("CONGA_SERPER_API_KEY"@.len() == 20);
    assert("CONGA_SERPAPI_API_KEY"@.len() == 21);
    assert("CONGA_EXA_API_KEY"@.len() == 17);
    assert("CONGA_FIRECRAWL_API_KEY"@.len() == 23);
    assert("CONGA_SEARCH_PROVIDER"@[8] != "CONGA_SERPAPI_API_KEY"@[8]);
    assert("CONGA_TAVILY_API_KEY"@[6] != "CONGA_SERPER_API_KEY"@[6]);
    let p0 = str_pair("CONGA_SEARCH_PROVIDER"@, s.provider);
    lemma_value_of_str_pair("CONGA_SEARCH_PROVIDER"@, s.provider);
    let p1 = str_pair("CONGA_BRAVE_API_KEY"@, s.brave_api_key);
    lemma_value_of_str_pair("CONGA_BRAVE_API_KEY"@, s.brave_api_key);
    let p2 = str_pair("CONGA_TAVILY_API_KEY"@, s.tavily_api_key);
    lemma_value_of_str_pair("CONGA_TAVILY_API_KEY"@, s.tavily_api_key);
    let p3 = str_pair("CONGA_SERPER_API_KEY"@, s.serper_api_key);
    lemma_value_of_str_pair("CONGA_SERPER_API_KEY"@, s.serper_api_key);
    let p4 = str_pair("CONGA_SERPAPI_API_KEY"@, s.serpapi_api_key);
    lemma_value_of_str_pair("CONGA_SERPAPI_API_KEY"@, s.serpapi_api_key);
    let p5 = str_pair("CONGA_EXA_API_KEY"@, s.exa_api_key);
    lemma_value_of_str_pair("CONGA_EXA_API_KEY"@, s.exa_api_key);
    let p6 = str_pair("CONGA_FIRECRAWL_API_KEY"@, s.firecrawl_api_key);
    lemma_value_of_str_pair("CONGA_FIRECRAWL_API_KEY"@, s.firecrawl_api_key);
    lemma_value_of_concat(p0, p1);
    lemma_value_of_concat(p0 + p1, p2);
    lemma_value_of_concat(p0 + p1 + p2, p3);
    lemma_value_of_concat(p0 + p1 + p2 + p3, p4);
    lemma_value_of_concat(p0 + p1 + p2 + p3 + p4, p5);
    lemma_value_of_concat(p0 + p1 + p2 + p3 + p4 + p5, p6);
    assert(s.pairs() == p0 + p1 + p2 + p3 + p4 + p5 + p6);
}

/// Each `[rag]` key is written to its own variable: the value the
/// section's pairs give each variable is that of its own key (numbers in
/// decimal, flags as `1` or `0`, empty text as unset), and unset when the
/// key is.
pub proof fn lemma_rag_variables(s: RagSection)
    ensures
        value_of(s.pairs(), "CONGA_RAG_CONFIG"@) == string_text(s.config),
        value_of(s.pairs(), "CONGA_RAG_EMBED_BASE_URL"@) == string_text(s.embed_base_url),
        value_of(s.pairs(), "CONGA_RAG_EMBED_KEY"@) == string_text(s.embed_key),
        value_of(s.pairs(), "CONGA_RAG_EMBED_MODEL"@) == string_text(s.embed_model),
        value_of(s.pairs(), "CONGA_RAG_EMBED_BATCH"@) == decimal_of(s.embed_batch),
        value_of(s.pairs(), "CONGA_RAG_STORE_PATH"@) == string_text(s.store_path),
{
    reveal_strlit("CONGA_RAG_CONFIG");
    reveal_strlit("CONGA_RAG_EMBED_BASE_URL");
    reveal_strlit("CONGA_RAG_EMBED_KEY");
    reveal_strlit("CONGA_RAG_EMBED_MODEL");
    reveal_strlit("CONGA_RAG_EMBED_BATCH");
    reveal_strlit("CONGA_RAG_STORE_PATH");
    assert("CONGA_RAG_CONFIG"@.len() == 16);
    assert("CONGA_RAG_EMBED_BASE_URL"@.len() == 24);
    assert("CONGA_RAG_EMBED_KEY"@.len() == 19);
    assert("CONGA_RAG_EMBED_MODEL"@.len() == 21);
    assert("CONGA_RAG_EMBED_BATCH"@.len() == 21);
    assert("CONGA_RAG_STORE_PATH"@.len() == 20);
    assert("CONGA_RAG_EMBED_MODEL"@[16] != "CONGA_RAG_EMBED_BATCH"@[16]);
    let p0 = str_pair("CONGA_RAG_CONFIG"@, s.config);
    lemma_value_of_str_pair("CONGA_RAG_CONFIG"@, s.config);
    let p1 = str_pair("CONGA_RAG_EMBED_BASE_URL"@, s.embed_base_url);
    lemma_value_of_str_pair("CONGA_RAG_EMBED_BASE_URL"@, s.embed_base_url);
    let p2 = str_pair("CONGA_RAG_EMBED_KEY"@, s.embed_key);
    lemma_value_of_str_pair("CONGA_RAG_EMBED_KEY"@, s.embed_key);
    let p3 = str_pair("CONGA_RAG_EMBED_MODEL"@, s.embed_model);
    lemma_value_of_str_pair("CONGA_RAG_EMBED_MODEL"@, s.embed_model);
    let p4 = num_pair("CONGA_RAG_EMBED_BATCH"@, s.embed_batch);
    lemma_value_of_pair("CONGA_RAG_EMBED_BATCH"@, s.embed_batch);
    let p5 = str_pair("CONGA_RAG_STORE_PATH"@, s.store_path);
    lemma_value_of_str_pair("CONGA_RAG_STORE_PATH"@, s.store_path);
    lemma_value_of_concat(p0, p1);
    lemma_value_of_concat(p0 + p1, p2);
    lemma_value_of_concat(p0 + p1 + p2, p3);
    lemma_value_of_concat(p0 + p1 + p2 + p3, p4);
    lemma_value_of_concat(p0 + p1 + p2 + p3 + p4, p5);
    assert(s.pairs() == p0 + p1 + p2 + p3 + p4 + p5);
}

/// Each `[llm]` / `[fast_llm]` key is written to its own variable under the
/// section's prefix: `{prefix}_BASE_URL` gets the base URL, `{prefix}_KEY`
/// the key, `{prefix}_MODEL` the model and `{prefix}_API` the API flavour
/// (unset when the key is unset or empty).
pub proof fn lemma_llm_variables(s: LlmSection, prefix: Seq<char>)
    ensures
        value_of(s.pairs(prefix), prefix + "_BASE_URL"@) == string_text(s.base_url),
        value_of(s.pairs(prefix), prefix + "_KEY"@) == string_text(s.key),
        value_of(s.pairs(prefix), prefix + "_MODEL"@) == string_text(s.model),
        value_of(s.pairs(prefix), prefix + "_API"@) == string_text(s.api),
{
    reveal_strlit("_BASE_URL");
    reveal_strlit("_KEY");
    reveal_strlit("_MODEL");
    reveal_strlit("_API");
    let n0 = prefix + "_BASE_URL"@;
    let n1 = prefix + "_KEY"@;
    let n2 = prefix + "_MODEL"@;
    let n3 = prefix + "_API"@;
    assert(n0.len() == prefix.len() + 9 && n1.len() == prefix.len() + 4);
    assert(n2.len() == prefix.len() + 6 && n3.len() == prefix.len() + 4);
    assert(n1[prefix.len() as int + 1] == 'K' && n3[prefix.len() as int + 1] == 'A');
    let p0 = str_pair(n0, s.base_url);
    let p1 = str_pair(n1, s.key);
    let p2 = str_pair(n2, s.model);
    let p3 = str_pair(n3, s.api);
    lemma_value_of_str_pair(n0, s.base_url);
    lemma_value_of_str_pair(n1, s.key);
    lemma_value_of_str_pair(n2, s.model);
    lemma_value_of_str_pair(n3, s.api);
    lemma_value_of_concat(p0, p1);
    lemma_value_of_concat(p0 + p1, p2);
    lemma_value_of_concat(p0 + p1 + p2, p3);
    assert(s.pairs(prefix) == p0 + p1 + p2 + p3);
}

/// The whole `config.toml`: every section and every key optional.
#[derive(Debug, Default)]
pub struct ConfigFile {
    pub llm: Option<LlmSection>,
    pub fast_llm: Option<LlmSection>,
    pub proxy: Option<ProxySection>,
    pub tunables: Option<TunablesSection>,
    pub gateway: Option<GatewaySection>,
    pub compact: Option<CompactSection>,
    pub tools: Option<ToolsSection>,
    pub search: Option<SearchSection>,
    pub rag: Option<RagSection>,
}

impl ConfigFile {
    /// The variables of `[llm]`, if present.
    pub open spec fn llm_pairs(self) -> Seq<(Seq<char>, Seq<char>)> {
        match self.llm {
            Some(s) => s.pairs("CONGA_LLM"@),
            None => seq![],
        }
    }

    /// The variables of `[fast_llm]`, if present.
    pub open spec fn fast_llm_pairs(self) -> Seq<(Seq<char>, Seq<char>)> {
        match self.fast_llm {
            Some(s) => s.pairs("CONGA_FAST_LLM"@),
            None => seq![],
        }
    }

    /// The variables of `[proxy]`, if present.
    pub open spec fn proxy_pairs(self) -> Seq<(Seq<char>, Seq<char>)> {
        match self.proxy {
            Some(s) => s.pairs(),
            None => seq![],
        }
    }

    /// The variables of `[tunables]`, if present.
    pub open spec fn tunables_pairs(self) -> Seq<(Seq<char>, Seq<char>)> {
        match self.tunables {
            Some(s) => s.pairs(),
            None => seq![],
        }
    }

    /// The variables of `[gateway]`, if present.
    pub open spec fn gateway_pairs(self) -> Seq<(Seq<char>, Seq<char>)> {
        match self.gateway {
            Some(s) => s.pairs(),
            None => seq![],
        }
    }

    /// The variables of `[compact]`, if present.
    pub open spec fn compact_pairs(self) -> Seq<(Seq<char>, Seq<char>)> {
        match self.compact {
            Some(s) => s.pairs(),
            None => seq![],
        }
    }

    /// The variables of `[tools]`, if present.
    pub open spec fn tools_pairs(self) -> Seq<(Seq<char>, Seq<char>)> {
        match self.tools {
            Some(s) => s.pairs(),
            None => seq![],
        }
    }

    /// The variables of `[search]`, if present.
    pub open spec fn search_pairs(self) -> Seq<(Seq<char>, Seq<char>)> {
        match self.search {
            Some(s) => s.pairs(),
            None => seq![],
        }
    }

    /// The variables of `[rag]`, if present.
    pub open spec fn rag_pairs(self) -> Seq<(Seq<char>, Seq<char>)> {
        match self.rag {
            Some(s) => s.pairs(),
            None => seq![],
        }
    }

    /// The variables of the whole file, section by section in file order.
    pub open spec fn pairs(self) -> Seq<(Seq<char>, Seq<char>)> {
        self.llm_pairs() + self.fast_llm_pairs() + self.proxy_pairs() + self.tunables_pairs()
            + self.gateway_pairs() + self.compact_pairs() + self.tools_pairs() + self.search_pairs()
            + self.rag_pairs()
    }

    /// Flatten to `(variable, value)` pairs, skipping unset and empty keys.
    pub fn env_pairs(&self) -> (r: Vec<(String, String)>)
        ensures
            pairs_view(r@) == self.pairs(),
    {
        let mut out: Vec<(String, String)> = Vec::new();
        let ghost mut acc: Seq<(Seq<char>, Seq<char>)> = Seq::empty();
        assert(pairs_view(out@) =~= acc);
        if let Some(s) = &self.llm {
            s.push(&mut out, "CONGA_LLM");
        }
        proof {
            acc = acc + self.llm_pairs();
        }
        assert(pairs_view(out@) =~= acc);
        if let Some(s) = &self.fast_llm {
            s.push(&mut out, "CONGA_FAST_LLM");
        }
        proof {
            acc = acc + self.fast_llm_pairs();
        }
        assert(pairs_view(out@) =~= acc);
        if let Some(s) = &self.proxy {
            s.push(&mut out);
        }
        proof {
            acc = acc + self.proxy_pairs();
        }
        assert(pairs_view(out@) =~= acc);
        if let Some(s) = &self.tunables {
            s.push(&mut out);
        }
        proof {
            acc = acc + self.tunables_pairs();
        }
        assert(pairs_view(out@) =~= acc);
        if let Some(s) = &self.gateway {
            s.push(&mut out);
        }
        proof {
            acc = acc + self.gateway_pairs();
        }
        assert(pairs_view(out@) =~= acc);
        if let Some(s) = &self.compact {
            s.push(&mut out);
        }
        proof {
            acc = acc + self.compact_pairs();
        }
        assert(pairs_view(out@) =~= acc);
        if let Some(s) = &self.tools {
            s.push(&mut out);
        }
        proof {
            acc = acc + self.tools_pairs();
        }
        assert(pairs_view(out@) =~= acc);
        if let Some(s) = &self.search {
            s.push(&mut out);
        }
        proof {
            acc = acc + self.search_pairs();
        }
        assert(pairs_view(out@) =~= acc);
        if let Some(s) = &self.rag {
            s.push(&mut out);
        }
        proof {
            acc = acc + self.rag_pairs();
        }
        assert(pairs_view(out@) =~= acc);
        assert(acc =~= self.pairs());
        out
    }
}

/// The pairs whose variable is not already set, in order.
pub open spec fn unset_pairs(pairs: Seq<(Seq<char>, Seq<char>)>, is_set: Seq<bool>) -> Seq<
    (Seq<char>, Seq<char>),
>
    decreases pairs.len(),
{
    if pairs.len() == 0 {
        seq![]
    } else {
        unset_pairs(pairs.drop_last(), is_set) + if is_set[pairs.len() - 1] {
            seq![]
        } else {
            seq![pairs.last()]
        }
    }
}

/// The overlay of the file under the environment: of `pairs`, those whose
/// variable is not already set (`is_set[i]` says whether pair `i`'s is);
/// the environment always wins.
pub fn overlay(pairs: &Vec<(String, String)>, is_set: &Vec<bool>) -> (r: Vec<(String, String)>)
    requires
        is_set.len() == pairs.len(),
    ensures
        pairs_view(r@) == unset_pairs(pairs_view(pairs@), is_set@),
{
    let mut out: Vec<(String, String)> = Vec::new();
    let mut i: usize = 0;
    assert(pairs_view(out@) =~= unset_pairs(pairs_view(pairs@).take(0), is_set@));
    while i < pairs.len()
        invariant
            is_set.len() == pairs.len(),
            0 <= i <= pairs.len(),
            pairs_view(out@) == unset_pairs(pairs_view(pairs@).take(i as int), is_set@),
        decreases pairs.len() - i,
    {
        let ghost prev = out@;
        let ghost t = pairs_view(pairs@).take(i + 1);
        assert(t.drop_last() =~= pairs_view(pairs@).take(i as int));
        assert(t.last() == (pairs@[i as int].0@, pairs@[i as int].1@));
        if !is_set[i] {
            let p = (pairs[i].0.clone(), pairs[i].1.clone());
            out.push(p);
            proof {
                lemma_push_view(prev, p);
            }
        }
        assert(pairs_view(out@) =~= unset_pairs(t, is_set@));
        i = i + 1;
    }
    assert(pairs_view(pairs@).take(pairs.len() as int) =~= pairs_view(pairs@));
    out
}

/// Which file configures this run: `CONGA_CONFIG` when set (an error when
/// that file does not exist), else the project file when it exists, else
/// `{home}/.conga/config.toml` when it exists, else none.
pub open spec fn discovered(
    explicit: Option<Seq<char>>,
    explicit_exists: bool,
    project: Seq<char>,
    project_exists: bool,
    home: Option<Seq<char>>,
    home_file_exists: bool,
) -> Result<Option<Seq<char>>, Seq<char>> {
    match explicit {
        Some(p) => if explicit_exists {
            Ok(Some(p))
        } else {
            Err(p)
        },
        None => if project_exists {
            Ok(Some(project))
        } else {
            match home {
                Some(h) => if home_file_exists {
                    Ok(Some(path_join(h, ".conga/config.toml"@)))
                } else {
                    Ok(None)
                },
                None => Ok(None),
            }
        },
    }
}

/// The home configuration file `{home}/.conga/config.toml`, whose existence
/// the caller checks before [`discover`].
pub fn home_config_path(home: &str) -> (r: String)
    ensures
        r@ == path_join(home@, ".conga/config.toml"@),
{
    join_path(home, ".conga/config.toml")
}

/// Discover the configuration file (see [`discovered`]), given the value of
/// `CONGA_CONFIG` and whether each candidate exists.
pub fn discover(
    explicit: Option<&str>,
    explicit_exists: bool,
    project: &str,
    project_exists: bool,
    home: Option<&str>,
    home_file_exists: bool,
) -> (r: Result<Option<String>, ConfigFileError>)
    ensures
        match discovered(
            match explicit {
                Some(p) => Some(p@),
                None => None,
            },
            explicit_exists,
            project@,
            project_exists,
            match home {
                Some(h) => Some(h@),
                None => None,
            },
            home_file_exists,
        ) {
            Ok(Some(p)) => r matches Ok(Some(q)) && q@ == p,
            Ok(None) => r matches Ok(None),
            Err(p) => r matches Err(ConfigFileError::ExplicitMissing(q)) && q@ == p,
        },
{
    if let Some(p) = explicit {
        if explicit_exists {
            return Ok(Some(p.to_owned()));
        }
        return Err(ConfigFileError::ExplicitMissing(p.to_owned()));
    }
    if project_exists {
        return Ok(Some(project.to_owned()));
    }
    match home {
        Some(h) => if home_file_exists {
            Ok(Some(home_config_path(h)))
        } else {
            Ok(None)
        },
        None => Ok(None),
    }
}

} // verus!
