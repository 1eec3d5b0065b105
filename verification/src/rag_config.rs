//! Retrieval configuration: `rag.toml` discovery, `CONGA_RAG_*` overrides,
//! validation, embedding resolution and the built-in memory sources.
//!
//! Discovery: `CONGA_RAG_CONFIG` (an error when that file is missing), then
//! `./rag.toml`, then `{home}/.conga/rag.toml`. Reading the file and the
//! environment is the caller's; this module decides what they mean.

use vstd::prelude::*;
use crate::decimal::{dec, parse_u64, parse_unsigned, parse_usize, u64_to_decimal};
use crate::name_map::NameMap;
use crate::paths::{join_path, path_join};
use crate::text::{str_eq, strip_prefix, trim, trimmed};

verus! {

/// A copy of a list of strings.
pub fn clone_strings(v: &Vec<String>) -> (r: Vec<String>)
    ensures
        r@ == v@,
{
    let mut out: Vec<String> = Vec::new();
    let mut i: usize = 0;
    while i < v.len()
        invariant
            0 <= i <= v.len(),
            out@ == v@.take(i as int),
        decreases v.len() - i,
    {
        out.push(v[i].clone());
        assert(out@ =~= v@.take(i + 1));
        i = i + 1;
    }
    assert(v@.take(v.len() as int) =~= v@);
    out
}

/// One input source.
#[derive(Debug, Clone)]
pub struct SourceConfig {
    /// The source type (`type` in the file); only `dir` is supported.
    pub kind: String,
    pub path: String,
    /// Glob patterns matched against the path relative to `path`; empty
    /// matches every file.
    pub includes: Vec<String>,
    pub exclude: Vec<String>,
}

impl SourceConfig {
    /// The default source: a `dir` with no path and no patterns.
    pub fn default() -> (r: Self)
        ensures
            r.kind@ == "dir"@,
            r.path@.len() == 0,
            r.includes@.len() == 0,
            r.exclude@.len() == 0,
    {
        SourceConfig { kind: "dir".to_owned(), path: String::new(), includes: Vec::new(), exclude: Vec::new() }
    }
}

/// `[embedding]`.
#[derive(Debug, Clone)]
pub struct EmbeddingConfig {
    pub base_url: Option<String>,
    pub api_key: Option<String>,
    pub model: Option<String>,
    pub batch: usize,
    /// Minimum pause between consecutive embedding requests (0 = off).
    pub min_interval_ms: u64,
}

impl EmbeddingConfig {
    /// No endpoint, batches of 64, no pause.
    pub fn default() -> (r: Self)
        ensures
            r.base_url is None,
            r.api_key is None,
            r.model is None,
            r.batch == 64,
            r.min_interval_ms == 0,
    {
        EmbeddingConfig { base_url: None, api_key: None, model: None, batch: 64, min_interval_ms: 0 }
    }
}

/// `[chunking]`.
#[derive(Debug, Clone, Copy)]
pub struct ChunkingConfig {
    pub target_chars: usize,
    pub overlap_chars: usize,
}

impl ChunkingConfig {
    /// Chunks of 1200 characters overlapping by 200.
    pub fn default() -> (r: Self)
        ensures
            r.target_chars == 1200,
            r.overlap_chars == 200,
    {
        ChunkingConfig { target_chars: 1200, overlap_chars: 200 }
    }
}

/// `[store]`.
#[derive(Debug, Clone)]
pub struct StoreConfig {
    pub path: Option<String>,
}

/// `[ask]`.
#[derive(Debug, Clone, Copy)]
pub struct AskConfig {
    pub top_k: usize,
}

impl AskConfig {
    /// Six hits.
    pub fn default() -> (r: Self)
        ensures
            r.top_k == 6,
    {
        AskConfig { top_k: 6 }
    }
}

/// The embedding connection, fully resolved.
#[derive(Debug, Clone)]
pub struct ResolvedEmbedding {
    pub base_url: String,
    pub api_key: String,
    pub model: String,
    pub batch: usize,
    pub min_interval_ms: u64,
}

/// The whole retrieval configuration.
#[derive(Debug)]
pub struct RagConfig {
    /// Input sources by name, in name order.
    pub sources: NameMap<SourceConfig>,
    pub embedding: EmbeddingConfig,
    pub chunking: ChunkingConfig,
    pub store: StoreConfig,
    pub ask: AskConfig,
}

/// The `CONGA_RAG_*` variables that override the file (each `None` when
/// unset).
#[derive(Debug, Clone)]
pub struct RagEnv {
    pub embed_base_url: Option<String>,
    pub embed_key: Option<String>,
    pub embed_model: Option<String>,
    pub embed_batch: Option<String>,
    pub embed_min_interval_ms: Option<String>,
    pub store_path: Option<String>,
}

/// `format!("{:?}", s)`: the text as Rust's `Debug` shows a string.
pub uninterp spec fn debug_quoted(s: Seq<char>) -> Seq<char>;

/// `str`'s `Debug` formatting (quoted, with escapes), as std's formatter
/// writes it. A fixed function of the text; what it is, is left to the
/// name.
#[verifier::external_body]
fn debug_str(s: &str) -> (r: String)
    ensures
        r@ == debug_quoted(s@),
{
    format!("{:?}", s)
}

/// The value of decimal text `v` when it parses and is at most `max`.
pub open spec fn parsed_within(v: Seq<char>, max: nat) -> Option<nat> {
    match parse_unsigned(v) {
        Some(n) => if n <= max {
            Some(n)
        } else {
            None
        },
        None => None,
    }
}

/// An override that is unset, or parses within `max`.
pub open spec fn override_parses(v: Option<String>, max: nat) -> bool {
    match v {
        Some(t) => parsed_within(t@, max) is Some,
        None => true,
    }
}

/// The message for a `CONGA_RAG_EMBED_BATCH` value that is not a `usize`.
pub open spec fn bad_batch_message(v: Seq<char>) -> Seq<char> {
    "CONGA_RAG_EMBED_BATCH 值无法解析为 usize: "@ + debug_quoted(v)
}

/// The message for a `CONGA_RAG_EMBED_MIN_INTERVAL_MS` value that is not a
/// `u64`.
pub open spec fn bad_interval_message(v: Seq<char>) -> Seq<char> {
    "CONGA_RAG_EMBED_MIN_INTERVAL_MS 值无法解析为 u64: "@ + debug_quoted(v)
}

/// `~/` expanded against the home directory, when there is one.
pub open spec fn expanded(p: Seq<char>, home: Option<Seq<char>>) -> Seq<char> {
    if "~/"@.is_prefix_of(p) {
        match home {
            Some(h) => path_join(h, p.skip(2)),
            None => p,
        }
    } else {
        p
    }
}

/// Expand a leading `~/` in `p` (see [`expanded`]).
pub fn expand_path(p: &str, home: Option<&str>) -> (r: String)
    ensures
        r@ == expanded(
            p@,
            match home {
                Some(h) => Some(h@),
                None => None,
            },
        ),
{
    proof {
        reveal_strlit("~/");
    }
    match strip_prefix(p, "~/") {
        Some(rest) => match home {
            Some(h) => join_path(h, rest.as_str()),
            None => p.to_owned(),
        },
        None => p.to_owned(),
    }
}

/// The validation error of a configuration, if any: no sources; the first
/// source in name order that is not a `dir` or has no path; a zero batch;
/// an overlap not below the target.
pub open spec fn validation_error(cfg: RagConfig) -> Option<Seq<char>> {
    let s = cfg.sources.entries_view();
    if s.len() == 0 {
        Some("配置缺少 [sources.*]:至少一个输入源"@)
    } else {
        match first_bad_source(s, 0) {
            Some(m) => Some(m),
            None => if cfg.embedding.batch == 0 {
                Some("embedding.batch 必须 > 0"@)
            } else if cfg.chunking.overlap_chars >= cfg.chunking.target_chars {
                Some(
                    "chunking.overlap_chars("@ + dec(cfg.chunking.overlap_chars as nat)
                        + ") 必须小于 target_chars("@ + dec(cfg.chunking.target_chars as nat) + ")"@,
                )
            } else {
                None
            },
        }
    }
}

/// The message for the first bad source from entry `i` on.
pub open spec fn first_bad_source(s: Seq<(Seq<char>, SourceConfig)>, i: int) -> Option<Seq<char>>
    decreases s.len() - i,
{
    if i < 0 || i >= s.len() {
        None
    } else if s[i].1.kind@ != "dir"@ {
        Some("源 "@ + s[i].0 + ": 首期仅支持 type = \"dir\""@)
    } else if s[i].1.path@.len() == 0 {
        Some("源 "@ + s[i].0 + ": 缺少 path"@)
    } else {
        first_bad_source(s, i + 1)
    }
}

/// Which `rag.toml` to load: `CONGA_RAG_CONFIG` when set (an error naming
/// it when that file does not exist), else `./rag.toml` when it exists,
/// else `{home}/.conga/rag.toml` when it exists, else none.
pub open spec fn rag_discovered(
    explicit: Option<Seq<char>>,
    explicit_exists: bool,
    cwd_exists: bool,
    home: Option<Seq<char>>,
    home_file_exists: bool,
) -> Result<Option<Seq<char>>, Seq<char>> {
    match explicit {
        Some(p) => if explicit_exists {
            Ok(Some(p))
        } else {
            Err("CONGA_RAG_CONFIG 已设置但文件不存在: "@ + p)
        },
        None => if cwd_exists {
            Ok(Some("rag.toml"@))
        } else {
            match home {
                Some(h) => if home_file_exists {
                    Ok(Some(path_join(h, ".conga/rag.toml"@)))
                } else {
                    Ok(None)
                },
                None => Ok(None),
            }
        },
    }
}

/// The home `rag.toml`, whose existence the caller checks.
pub fn home_rag_path(home: &str) -> (r: String)
    ensures
        r@ == path_join(home@, ".conga/rag.toml"@),
{
    join_path(home, ".conga/rag.toml")
}

/// The message when no configuration file is found anywhere.
pub fn not_found_message() -> (r: String)
    ensures
        r@ == "未找到配置:设置 CONGA_RAG_CONFIG,或创建 ./rag.toml / ~/.conga/rag.toml"@,
{
    "未找到配置:设置 CONGA_RAG_CONFIG,或创建 ./rag.toml / ~/.conga/rag.toml".to_owned()
}

/// Where the built-in `notes` and `memory` sources live:
/// `CONGA_RAG_BUILTIN_BASE` when set (blank disables them), else the
/// configuration directory.
pub open spec fn builtin_base_of(var: Option<Seq<char>>, config_dir: Seq<char>) -> Option<
    Seq<char>,
> {
    match var {
        Some(b) => if trimmed(b).len() == 0 {
            None
        } else {
            Some(b)
        },
        None => Some(config_dir),
    }
}

/// The built-in sources' root (see [`builtin_base_of`]), given
/// `CONGA_RAG_BUILTIN_BASE` and the configuration directory.
pub fn builtin_base(var: Option<&str>, config_dir: &str) -> (r: Option<String>)
    ensures
        match builtin_base_of(
            match var {
                Some(v) => Some(v@),
                None => None,
            },
            config_dir@,
        ) {
            Some(b) => r matches Some(x) && x@ == b,
            None => r is None,
        },
{
    match var {
        Some(b) => {
            let t = trim(b);
            if t.as_str().is_empty() {
                None
            } else {
                Some(b.to_owned())
            }
        },
        None => Some(config_dir.to_owned()),
    }
}

impl RagConfig {
    /// An empty configuration with every section at its default.
    pub fn default() -> (r: Self)
        ensures
            r.sources.entries_view().len() == 0,
            r.embedding.batch == 64,
            r.embedding.min_interval_ms == 0,
            r.embedding.base_url is None && r.embedding.api_key is None && r.embedding.model is None,
            r.chunking.target_chars == 1200 && r.chunking.overlap_chars == 200,
            r.store.path is None,
            r.ask.top_k == 6,
    {
        RagConfig {
            sources: NameMap::new(),
            embedding: EmbeddingConfig::default(),
            chunking: ChunkingConfig::default(),
            store: StoreConfig { path: None },
            ask: AskConfig::default(),
        }
    }

    /// Discover the file to load (see [`rag_discovered`]).
    pub fn discover(
        explicit: Option<&str>,
        explicit_exists: bool,
        cwd_exists: bool,
        home: Option<&str>,
        home_file_exists: bool,
    ) -> (r: Result<Option<String>, String>)
        ensures
            match rag_discovered(
                match explicit {
                    Some(p) => Some(p@),
                    None => None,
                },
                explicit_exists,
                cwd_exists,
                match home {
                    Some(h) => Some(h@),
                    None => None,
                },
                home_file_exists,
            ) {
                Ok(Some(p)) => r matches Ok(Some(q)) && q@ == p,
                Ok(None) => r matches Ok(None),
                Err(m) => r matches Err(e) && e@ == m,
            },
    {
        if let Some(p) = explicit {
            if explicit_exists {
                return Ok(Some(p.to_owned()));
            }
            let mut m = "CONGA_RAG_CONFIG 已设置但文件不存在: ".to_owned();
            m.append(p);
            return Err(m);
        }
        if cwd_exists {
            return Ok(Some("rag.toml".to_owned()));
        }
        match home {
            Some(h) => if home_file_exists {
                Ok(Some(home_rag_path(h)))
            } else {
                Ok(None)
            },
            None => Ok(None),
        }
    }

    /// Apply the `CONGA_RAG_*` overrides in order: base URL, key, model,
    /// batch (must parse as a `usize`), minimum interval (must parse as a
    /// `u64`), store path. A value that does not parse fails, naming the
    /// variable and the value; the overrides before it have then been
    /// applied and none after it.
    pub fn apply_env(&mut self, env: &RagEnv) -> (r: Result<(), String>)
        ensures
            final(self).sources == old(self).sources,
            final(self).chunking == old(self).chunking,
            final(self).ask == old(self).ask,
            final(self).embedding.base_url == match env.embed_base_url {
                Some(v) => Some(v),
                None => old(self).embedding.base_url,
            },
            final(self).embedding.api_key == match env.embed_key {
                Some(v) => Some(v),
                None => old(self).embedding.api_key,
            },
            final(self).embedding.model == match env.embed_model {
                Some(v) => Some(v),
                None => old(self).embedding.model,
            },
            final(self).embedding.batch == match env.embed_batch {
                Some(v) => match parsed_within(v@, usize::MAX as nat) {
                    Some(n) => n as usize,
                    None => old(self).embedding.batch,
                },
                None => old(self).embedding.batch,
            },
            r is Ok <==> (override_parses(env.embed_batch, usize::MAX as nat) && override_parses(
                env.embed_min_interval_ms,
                u64::MAX as nat,
            )),
            !override_parses(env.embed_batch, usize::MAX as nat) ==> (r matches Err(m) && m@
                == bad_batch_message(env.embed_batch->0@)),
            override_parses(env.embed_batch, usize::MAX as nat) && !override_parses(
                env.embed_min_interval_ms,
                u64::MAX as nat,
            ) ==> (r matches Err(m) && m@ == bad_interval_message(env.embed_min_interval_ms->0@)),
            final(self).embedding.min_interval_ms == if override_parses(
                env.embed_batch,
                usize::MAX as nat,
            ) {
                match env.embed_min_interval_ms {
                    Some(v) => match parsed_within(v@, u64::MAX as nat) {
                        Some(n) => n as u64,
                        None => old(self).embedding.min_interval_ms,
                    },
                    None => old(self).embedding.min_interval_ms,
                }
            } else {
                old(self).embedding.min_interval_ms
            },
            final(self).store.path == if r is Ok {
                match env.store_path {
                    Some(v) => Some(v),
                    None => old(self).store.path,
                }
            } else {
                old(self).store.path
            },
    {
        if let Some(v) = &env.embed_base_url {
            self.embedding.base_url = Some(v.clone());
        }
        if let Some(v) = &env.embed_key {
            self.embedding.api_key = Some(v.clone());
        }
        if let Some(v) = &env.embed_model {
            self.embedding.model = Some(v.clone());
        }
        if let Some(v) = &env.embed_batch {
            match parse_usize(v.as_str()) {
                Some(n) => {
                    self.embedding.batch = n;
                },
                None => {
                    let mut m = "CONGA_RAG_EMBED_BATCH 值无法解析为 usize: ".to_owned();
                    let q = debug_str(v.as_str());
                    m.append(q.as_str());
                    return Err(m);
                },
            }
        }
        if let Some(v) = &env.embed_min_interval_ms {
            match parse_u64(v.as_str()) {
                Some(n) => {
                    self.embedding.min_interval_ms = n;
                },
                None => {
                    let mut m = "CONGA_RAG_EMBED_MIN_INTERVAL_MS 值无法解析为 u64: ".to_owned();
                    let q = debug_str(v.as_str());
                    m.append(q.as_str());
                    return Err(m);
                },
            }
        }
        if let Some(v) = &env.store_path {
            self.store.path = Some(v.clone());
        }
        Ok(())
    }

    /// Check the configuration (see [`validation_error`]).
    pub fn validate(&self) -> (r: Result<(), String>)
        ensures
            match validation_error(*self) {
                Some(m) => r matches Err(e) && e@ == m,
                None => r is Ok,
            },
    {
        if self.sources.is_empty() {
            return Err("配置缺少 [sources.*]:至少一个输入源".to_owned());
        }
        let n = self.sources.len();
        let mut i: usize = 0;
        while i < n
            invariant
                n == self.sources.entries_view().len(),
                0 <= i <= n,
                first_bad_source(self.sources.entries_view(), 0) == first_bad_source(
                    self.sources.entries_view(),
                    i as int,
                ),
            decreases n - i,
        {
            let name = self.sources.name_at(i);
            let src = self.sources.value_at(i);
            if !str_eq(src.kind.as_str(), "dir") {
                let mut m = "源 ".to_owned();
                m.append(name.as_str());
                m.append(": 首期仅支持 type = \"dir\"");
                return Err(m);
            }
            if src.path.as_str().is_empty() {
                let mut m = "源 ".to_owned();
                m.append(name.as_str());
                m.append(": 缺少 path");
                return Err(m);
            }
            i = i + 1;
        }
        if self.embedding.batch == 0 {
            return Err("embedding.batch 必须 > 0".to_owned());
        }
        if self.chunking.overlap_chars >= self.chunking.target_chars {
            let mut m = "chunking.overlap_chars(".to_owned();
            m.append(u64_to_decimal(self.chunking.overlap_chars as u64).as_str());
            m.append(") 必须小于 target_chars(");
            m.append(u64_to_decimal(self.chunking.target_chars as u64).as_str());
            m.append(")");
            return Err(m);
        }
        Ok(())
    }

    /// The embedding connection: each of the base URL and key from the file,
    /// else from `CONGA_LLM_BASE_URL` / `CONGA_LLM_KEY` (given as
    /// `llm_base_url` / `llm_key`); the model only from the file.
    pub fn resolve_embedding(&self, llm_base_url: Option<&str>, llm_key: Option<&str>) -> (r: Result<
        ResolvedEmbedding,
        String,
    >)
        ensures
            match r {
                Ok(e) => {
                    &&& e.base_url@ == match self.embedding.base_url {
                        Some(u) => u@,
                        None => llm_base_url->0@,
                    }
                    &&& (self.embedding.base_url is Some || llm_base_url is Some)
                    &&& e.api_key@ == match self.embedding.api_key {
                        Some(k) => k@,
                        None => llm_key->0@,
                    }
                    &&& (self.embedding.api_key is Some || llm_key is Some)
                    &&& self.embedding.model matches Some(m) && e.model@ == m@
                    &&& e.batch == self.embedding.batch
                    &&& e.min_interval_ms == self.embedding.min_interval_ms
                },
                Err(m) => if self.embedding.base_url is None && llm_base_url is None {
                    m@ == "embedding.base_url 未配置且 CONGA_LLM_BASE_URL 未设置"@
                } else if self.embedding.api_key is None && llm_key is None {
                    m@ == "embedding.api_key 未配置且 CONGA_LLM_KEY 未设置"@
                } else {
                    self.embedding.model is None && m@ == "embedding.model 未配置"@
                },
            },
    {
        let base_url = match &self.embedding.base_url {
            Some(u) => u.clone(),
            None => match llm_base_url {
                Some(u) => u.to_owned(),
                None => {
                    return Err("embedding.base_url 未配置且 CONGA_LLM_BASE_URL 未设置".to_owned());
                },
            },
        };
        let api_key = match &self.embedding.api_key {
            Some(k) => k.clone(),
            None => match llm_key {
                Some(k) => k.to_owned(),
                None => {
                    return Err("embedding.api_key 未配置且 CONGA_LLM_KEY 未设置".to_owned());
                },
            },
        };
        let model = match &self.embedding.model {
            Some(m) => m.clone(),
            None => {
                return Err("embedding.model 未配置".to_owned());
            },
        };
        Ok(
            ResolvedEmbedding {
                base_url,
                api_key,
                model,
                batch: self.embedding.batch,
                min_interval_ms: self.embedding.min_interval_ms,
            },
        )
    }

    /// The store file: the configured path, else
    /// `{home}/.conga/rag/index.db` (relative when there is no home).
    pub fn store_path(&self, home: Option<&str>) -> (r: String)
        ensures
            r@ == match self.store.path {
                Some(p) => p@,
                None => path_join(
                    match home {
                        Some(h) => h@,
                        None => Seq::empty(),
                    },
                    ".conga/rag/index.db"@,
                ),
            },
    {
        match &self.store.path {
            Some(p) => p.clone(),
            None => match home {
                Some(h) => join_path(h, ".conga/rag/index.db"),
                None => {
                    proof {
                        reveal_strlit("");
                    }
                    join_path("", ".conga/rag/index.db")
                },
            },
        }
    }

    /// The same configuration with the store at `path`.
    pub fn with_store_path(self, path: String) -> (r: Self)
        ensures
            r.store.path == Some(path),
            r.sources == self.sources,
            r.embedding == self.embedding,
            r.chunking == self.chunking,
            r.ask == self.ask,
    {
        let mut c = self;
        c.store.path = Some(path);
        c
    }

    /// Expand a leading `~/` in every source path and the store path.
    pub fn expand_tilde(&mut self, home: Option<&str>)
        ensures
            final(self).sources.entries_view().len() == old(self).sources.entries_view().len(),
            forall|i: int|
                0 <= i < old(self).sources.entries_view().len() ==> {
                    let (k, s) = old(self).sources.entries_view()[i];
                    let (k2, s2) = #[trigger] final(self).sources.entries_view()[i];
                    &&& k2 == k
                    &&& s2.path@ == expanded(
                        s.path@,
                        match home {
                            Some(h) => Some(h@),
                            None => None,
                        },
                    )
                    &&& s2.kind@ == s.kind@
                    &&& s2.includes@ == s.includes@
                    &&& s2.exclude@ == s.exclude@
                },
            match old(self).store.path {
                Some(p) => final(self).store.path matches Some(q) && q@ == expanded(
                    p@,
                    match home {
                        Some(h) => Some(h@),
                        None => None,
                    },
                ),
                None => final(self).store.path is None,
            },
            final(self).embedding == old(self).embedding,
            final(self).chunking == old(self).chunking,
            final(self).ask == old(self).ask,
    {
        let n = self.sources.len();
        let ghost old_s = self.sources.entries_view();
        let mut i: usize = 0;
        while i < n
            invariant
                n == self.sources.entries_view().len(),
                n == old_s.len(),
                0 <= i <= n,
                forall|j: int|
                    #![trigger self.sources.entries_view()[j]]
                    0 <= j < n ==> {
                        let (k, s) = old_s[j];
                        let (k2, s2) = self.sources.entries_view()[j];
                        &&& k2 == k
                        &&& (j < i ==> s2.path@ == expanded(
                            s.path@,
                            match home {
                                Some(h) => Some(h@),
                                None => None,
                            },
                        ))
                        &&& (j >= i ==> s2.path@ == s.path@)
                        &&& s2.kind@ == s.kind@
                        &&& s2.includes@ == s.includes@
                        &&& s2.exclude@ == s.exclude@
                    },
                self.embedding == old(self).embedding,
                self.chunking == old(self).chunking,
                self.ask == old(self).ask,
                self.store == old(self).store,
            decreases n - i,
        {
            let src = self.sources.value_at(i);
            let e = SourceConfig {
                kind: src.kind.clone(),
                path: expand_path(src.path.as_str(), home),
                includes: clone_strings(&src.includes),
                exclude: clone_strings(&src.exclude),
            };
            self.sources.set_value(i, e);
            i = i + 1;
        }
        let sp = match &self.store.path {
            Some(p) => Some(expand_path(p.as_str(), home)),
            None => None,
        };
        self.store.path = sp;
    }

    /// Add the built-in `notes` and `memory` sources under `base`: each when
    /// its directory exists (`notes_is_dir`, `memory_is_dir`) and the
    /// configuration has not claimed the name (see [`injected`]).
    pub fn inject_builtins_in(&mut self, base: &str, notes_is_dir: bool, memory_is_dir: bool)
        ensures
            injected(old(self).sources, final(self).sources, base@, notes_is_dir, memory_is_dir),
            final(self).embedding == old(self).embedding,
            final(self).chunking == old(self).chunking,
            final(self).store == old(self).store,
            final(self).ask == old(self).ask,
    {
        proof {
            reveal_strlit("notes");
            reveal_strlit("memory");
        }
        let ghost s0 = self.sources;
        if notes_is_dir && !self.sources.contains_key("notes") {
            let mut src = SourceConfig::default();
            src.path = join_path(base, "notes");
            self.sources.insert("notes".to_owned(), src);
        }
        let ghost s1 = self.sources;
        if memory_is_dir && !self.sources.contains_key("memory") {
            let mut src = SourceConfig::default();
            src.path = join_path(base, "memory");
            self.sources.insert("memory".to_owned(), src);
        }
        assert(forall|k: Seq<char>|
            k != "notes"@ && k != "memory"@ ==> #[trigger] self.sources.get_spec(k) == s0.get_spec(
                k,
            )) by {
            assert forall|k: Seq<char>| k != "notes"@ && k != "memory"@ implies #[trigger] self.sources.get_spec(k)
                == s0.get_spec(k) by {
                assert(s1.get_spec(k) == s0.get_spec(k));
            }
        }
        assert(s1.get_spec("notes"@) == self.sources.get_spec("notes"@));
    }

    /// Add the built-in sources under the built-in root, when there is one
    /// (see [`builtin_base`]).
    pub fn inject_builtins(&mut self, base: Option<&str>, notes_is_dir: bool, memory_is_dir: bool)
        ensures
            match base {
                Some(b) => injected(old(self).sources, final(self).sources, b@, notes_is_dir, memory_is_dir),
                None => final(self).sources == old(self).sources,
            },
            final(self).embedding == old(self).embedding,
            final(self).chunking == old(self).chunking,
            final(self).store == old(self).store,
            final(self).ask == old(self).ask,
    {
        if let Some(b) = base {
            self.inject_builtins_in(b, notes_is_dir, memory_is_dir);
        }
    }
}

/// A built-in source: a plain `dir` source at `{base}/{name}`.
pub open spec fn builtin_source(src: SourceConfig, base: Seq<char>, name: Seq<char>) -> bool {
    &&& src.kind@ == "dir"@
    &&& src.path@ == path_join(base, name)
    &&& src.includes@.len() == 0
    &&& src.exclude@.len() == 0
}

/// How the built-in source `name` stands after injection: added when its
/// directory exists and the name is free, otherwise as it was.
pub open spec fn builtin_slot(
    before: NameMap<SourceConfig>,
    after: NameMap<SourceConfig>,
    base: Seq<char>,
    name: Seq<char>,
    is_dir: bool,
) -> bool {
    if is_dir && before.get_spec(name) is None {
        after.get_spec(name) matches Some(s) && builtin_source(s, base, name)
    } else {
        after.get_spec(name) == before.get_spec(name)
    }
}

/// The sources after injecting the built-ins under `base`: `notes` and
/// `memory` as [`builtin_slot`] says, every other name unchanged.
pub open spec fn injected(
    before: NameMap<SourceConfig>,
    after: NameMap<SourceConfig>,
    base: Seq<char>,
    notes_is_dir: bool,
    memory_is_dir: bool,
) -> bool {
    &&& forall|k: Seq<char>|
        k != "notes"@ && k != "memory"@ ==> #[trigger] after.get_spec(k) == before.get_spec(k)
    &&& builtin_slot(before, after, base, "notes"@, notes_is_dir)
    &&& builtin_slot(before, after, base, "memory"@, memory_is_dir)
}

/// Injecting the built-ins is idempotent: a second injection with the same
/// root and directories changes no source.
pub proof fn lemma_inject_idempotent(
    c0: NameMap<SourceConfig>,
    c1: NameMap<SourceConfig>,
    c2: NameMap<SourceConfig>,
    base: Seq<char>,
    notes_is_dir: bool,
    memory_is_dir: bool,
)
    requires
        injected(c0, c1, base, notes_is_dir, memory_is_dir),
        injected(c1, c2, base, notes_is_dir, memory_is_dir),
    ensures
        forall|k: Seq<char>| #[trigger] c2.get_spec(k) == c1.get_spec(k),
{
    reveal_strlit("notes");
    reveal_strlit("memory");
    assert forall|k: Seq<char>| #[trigger] c2.get_spec(k) == c1.get_spec(k) by {
        if k != "notes"@ && k != "memory"@ {
        }
    }
}

/// A user's own source keeps its name: injection never replaces a source
/// the configuration already has.
pub proof fn lemma_inject_respects_user_sources(
    c0: NameMap<SourceConfig>,
    c1: NameMap<SourceConfig>,
    base: Seq<char>,
    notes_is_dir: bool,
    memory_is_dir: bool,
    k: Seq<char>,
)
    requires
        injected(c0, c1, base, notes_is_dir, memory_is_dir),
        c0.get_spec(k) is Some,
    ensures
        c1.get_spec(k) == c0.get_spec(k),
{
    reveal_strlit("notes");
    reveal_strlit("memory");
}

/// Whether every source is a `dir` with a path.
pub open spec fn sources_usable(s: Seq<(Seq<char>, SourceConfig)>) -> bool {
    forall|j: int| 0 <= j < s.len() ==> (#[trigger] s[j]).1.kind@ == "dir"@ && s[j].1.path@.len() > 0
}

proof fn lemma_first_bad_source_none(s: Seq<(Seq<char>, SourceConfig)>, i: int)
    requires
        0 <= i,
    ensures
        first_bad_source(s, i) is None <==> forall|j: int|
            i <= j < s.len() ==> (#[trigger] s[j]).1.kind@ == "dir"@ && s[j].1.path@.len() > 0,
    decreases s.len() - i,
{
    if i < s.len() {
        lemma_first_bad_source_none(s, i + 1);
    }
}

/// A retrieval configuration passes validation exactly when it has a
/// source, every source is a `dir` with a non-empty path, the embedding
/// batch is positive and the chunk overlap is below the chunk target: a
/// source without a path is always refused.
pub proof fn lemma_validation_passes(cfg: RagConfig)
    ensures
        validation_error(cfg) is None <==> {
            &&& cfg.sources.entries_view().len() > 0
            &&& sources_usable(cfg.sources.entries_view())
            &&& cfg.embedding.batch > 0
            &&& cfg.chunking.overlap_chars < cfg.chunking.target_chars
        },
{
    lemma_first_bad_source_none(cfg.sources.entries_view(), 0);
}

proof fn lemma_first_bad_source_at(s: Seq<(Seq<char>, SourceConfig)>, i: int, k: int)
    requires
        0 <= i <= k < s.len(),
        forall|j: int| i <= j < k ==> (#[trigger] s[j]).1.kind@ == "dir"@ && s[j].1.path@.len() > 0,
    ensures
        first_bad_source(s, i) == first_bad_source(s, k),
    decreases k - i,
{
    if i < k {
        lemma_first_bad_source_at(s, i + 1, k);
    }
}

/// The refusal names the first unusable source in name order: a source
/// that is not a `dir` is refused as such, and a `dir` without a path with
/// `源 {name}: 缺少 path`.
pub proof fn lemma_refusal_names_source(cfg: RagConfig, k: int)
    requires
        0 <= k < cfg.sources.entries_view().len(),
        sources_usable(cfg.sources.entries_view().take(k)),
    ensures
        ({
            let e = cfg.sources.entries_view()[k];
            &&& e.1.kind@ != "dir"@ ==> validation_error(cfg) == Some(
                "源 "@ + e.0 + ": 首期仅支持 type = \"dir\""@,
            )
            &&& e.1.kind@ == "dir"@ && e.1.path@.len() == 0 ==> validation_error(cfg) == Some(
                "源 "@ + e.0 + ": 缺少 path"@,
            )
        }),
{
    let s = cfg.sources.entries_view();
    assert forall|j: int| 0 <= j < k implies (#[trigger] s[j]).1.kind@ == "dir"@ && s[j].1.path@.len() > 0 by {
        assert(s.take(k)[j] == s[j]);
    }
    lemma_first_bad_source_at(s, 0, k);
}

} // verus!
