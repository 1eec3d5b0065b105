//! Extensions: the tool registry, the production composition of optional
//! tools, and the decisions of the retrieval tools (`rag_search`,
//! `rag_remember`).
//!
//! Running a tool (reading the index, calling the embedding service,
//! writing a note) is the host's; this module decides what is registered,
//! what the arguments mean, where a note goes, and what the tool answers.

use vstd::prelude::*;
use crate::decimal::{dec, u64_to_decimal};
use crate::paths::{join_path, path_join, push_char};
use crate::rag_config::{RagConfig, SourceConfig};
use crate::text::{chars_of, string_of, trim, trimmed};
use crate::tool::RiskLevel;

verus! {

/// A tool as registered: its name, label, description, JSON-schema
/// parameters (as JSON text) and risk grade.
#[derive(Debug, Clone)]
pub struct ToolSpec {
    pub name: String,
    pub label: String,
    pub description: String,
    pub parameters: String,
    pub risk: RiskLevel,
}

impl ToolSpec {
    /// A copy of this tool.
    pub fn copied(&self) -> (r: ToolSpec)
        ensures
            r == *self,
    {
        ToolSpec {
            name: self.name.clone(),
            label: self.label.clone(),
            description: self.description.clone(),
            parameters: self.parameters.clone(),
            risk: self.risk,
        }
    }
}

/// The registry extensions add their tools to.
#[derive(Debug)]
pub struct ExtensionApiImpl {
    pub tools: Vec<ToolSpec>,
}

impl ExtensionApiImpl {
    /// An empty registry.
    pub fn new() -> (r: Self)
        ensures
            r.tools@.len() == 0,
    {
        ExtensionApiImpl { tools: Vec::new() }
    }

    /// Add a tool after those already registered.
    pub fn register_tool(&mut self, t: ToolSpec)
        ensures
            final(self).tools@ == old(self).tools@.push(t),
    {
        self.tools.push(t);
    }
}

/// A registered tool's name and grade.
pub open spec fn named(t: ToolSpec, name: Seq<char>, risk: RiskLevel) -> bool {
    t.name@ == name && t.risk == risk
}

fn tool_spec(name: &str, label: &str, description: &str, parameters: &str, risk: RiskLevel) -> (r:
    ToolSpec)
    ensures
        r.name@ == name@,
        r.label@ == label@,
        r.description@ == description@,
        r.parameters@ == parameters@,
        r.risk == risk,
{
    ToolSpec {
        name: name.to_owned(),
        label: label.to_owned(),
        description: description.to_owned(),
        parameters: parameters.to_owned(),
        risk,
    }
}

/// The description of `web_search`.
pub const WEB_SEARCH_DESCRIPTION: &'static str = "Search the web.";

/// The JSON schema of `web_search`'s parameters.
pub const WEB_SEARCH_PARAMETERS: &'static str = "{\"type\": \"object\", \"properties\": {}}";

/// The description of `rag_search`.
pub const RAG_SEARCH_DESCRIPTION: &'static str = "语义检索个人知识库(用户笔记/文档 + agent 长期记忆 notes + 蒸馏教训 memory,由 `conga-rag ingest` 或 `rag_remember` 维护)。适用:查找个人笔记、过往总结、项目文档、长期记忆。不适用:找代码文件(用 grep)、联网信息(用 web_search)。返回相关片段与源文件路径;需要全文时用 read 工具读取源文件。source 可选值含 notes/memory。";

/// The JSON schema of `rag_search`'s parameters.
pub const RAG_SEARCH_PARAMETERS: &'static str = "{\"type\": \"object\", \"properties\": {\"query\": {\"type\": \"string\", \"description\": \"检索词(自然语言或关键词)\"}, \"k\": {\"type\": \"number\", \"description\": \"返回条数,默认取配置 ask.top_k,上限 20\"}, \"source\": {\"type\": \"string\", \"description\": \"可选,按源名过滤(如 notes)\"}}, \"required\": [\"query\"]}";

/// The description of `rag_remember`.
pub const RAG_REMEMBER_DESCRIPTION: &'static str = "把跨会话有用的知识/偏好/事实写入长期记忆(同 title 覆盖旧记忆)。适用:用户说\"记住这个\",或你判断该知识未来会话仍需要。不适用:易变状态、一次性任务细节(不要记)。写入后可用 rag_search 检索。";

/// The JSON schema of `rag_remember`'s parameters.
pub const RAG_REMEMBER_PARAMETERS: &'static str = "{\"type\": \"object\", \"properties\": {\"title\": {\"type\": \"string\", \"description\": \"记忆标题(主键,同题覆盖)\"}, \"content\": {\"type\": \"string\", \"description\": \"自包含的知识陈述,脱离当前对话也能读懂\"}, \"tags\": {\"type\": \"array\", \"items\": {\"type\": \"string\"}, \"description\": \"可选标签\"}}, \"required\": [\"title\", \"content\"]}";

/// The description of `terminal`.
pub const TERMINAL_DESCRIPTION: &'static str = "Run commands in a persistent terminal session.";

/// The JSON schema of `terminal`'s parameters.
pub const TERMINAL_PARAMETERS: &'static str = "{\"type\": \"object\", \"properties\": {}}";

/// Whether `t` is the `web_search` tool: its name, label, description,
/// parameter schema and risk grade.
pub open spec fn is_web_search(t: ToolSpec) -> bool {
    &&& named(t, "web_search"@, RiskLevel::Low)
    &&& t.label@ == "Web Search"@
    &&& t.description@ == WEB_SEARCH_DESCRIPTION@
    &&& t.parameters@ == WEB_SEARCH_PARAMETERS@
}

/// Whether `t` is the `rag_search` tool: its name, label, description,
/// parameter schema and risk grade.
pub open spec fn is_rag_search(t: ToolSpec) -> bool {
    &&& named(t, "rag_search"@, RiskLevel::Low)
    &&& t.label@ == "RAG Search"@
    &&& t.description@ == RAG_SEARCH_DESCRIPTION@
    &&& t.parameters@ == RAG_SEARCH_PARAMETERS@
}

/// Whether `t` is the `rag_remember` tool: its name, label, description,
/// parameter schema and risk grade.
pub open spec fn is_rag_remember(t: ToolSpec) -> bool {
    &&& named(t, "rag_remember"@, RiskLevel::Medium)
    &&& t.label@ == "RAG Remember"@
    &&& t.description@ == RAG_REMEMBER_DESCRIPTION@
    &&& t.parameters@ == RAG_REMEMBER_PARAMETERS@
}

/// Whether `t` is the `terminal` tool: its name, label, description,
/// parameter schema and risk grade.
pub open spec fn is_terminal(t: ToolSpec) -> bool {
    &&& named(t, "terminal"@, RiskLevel::High)
    &&& t.label@ == "Terminal"@
    &&& t.description@ == TERMINAL_DESCRIPTION@
    &&& t.parameters@ == TERMINAL_PARAMETERS@
}

/// `web_search`: a read-only web search.
pub fn web_search_tool() -> (r: ToolSpec)
    ensures
        is_web_search(r),
{
    tool_spec("web_search", "Web Search", WEB_SEARCH_DESCRIPTION, WEB_SEARCH_PARAMETERS, RiskLevel::Low)
}

/// `rag_search`: read-only retrieval from the personal index, so `Low`.
pub fn rag_search_tool() -> (r: ToolSpec)
    ensures
        is_rag_search(r),
{
    tool_spec("rag_search", "RAG Search", RAG_SEARCH_DESCRIPTION, RAG_SEARCH_PARAMETERS, RiskLevel::Low)
}

/// `rag_remember`: writes a note, so `Medium` like any file write.
pub fn rag_remember_tool() -> (r: ToolSpec)
    ensures
        is_rag_remember(r),
{
    tool_spec("rag_remember", "RAG Remember", RAG_REMEMBER_DESCRIPTION, RAG_REMEMBER_PARAMETERS, RiskLevel::Medium)
}

/// `terminal`: runs arbitrary commands on a persistent terminal, so always
/// `High`, like `bash`.
pub fn terminal_tool() -> (r: ToolSpec)
    ensures
        is_terminal(r),
{
    tool_spec("terminal", "Terminal", TERMINAL_DESCRIPTION, TERMINAL_PARAMETERS, RiskLevel::High)
}

/// Register the retrieval tools: `rag_search`, then `rag_remember`.
pub fn register_rag(api: &mut ExtensionApiImpl)
    ensures
        final(api).tools@.len() == old(api).tools@.len() + 2,
        final(api).tools@.take(old(api).tools@.len() as int) == old(api).tools@,
        is_rag_search(final(api).tools@[old(api).tools@.len() as int]),
        is_rag_remember(final(api).tools@[old(api).tools@.len() as int + 1]),
{
    let ghost before = api.tools@;
    api.register_tool(rag_search_tool());
    api.register_tool(rag_remember_tool());
    assert(api.tools@.take(before.len() as int) =~= before);
}

/// Which optional extensions a build carries: the retrieval tools and the
/// terminal are each behind a build feature.
#[derive(Debug, Clone, Copy, PartialEq, Eq, Structural)]
pub struct ExtFeatures {
    pub rag: bool,
    pub terminal: bool,
}

/// What the production composition adds after the tools in `before`, each
/// in full (see [`is_web_search`] and the others): `web_search`; then `rag_search` and `rag_remember` when the build has
/// the retrieval feature; then `terminal` when it has the terminal one.
pub open spec fn production_tools(before: Seq<ToolSpec>, after: Seq<ToolSpec>, f: ExtFeatures) -> bool {
    let n = before.len() as int;
    let k = n + 1 + if f.rag {
        2int
    } else {
        0int
    };
    &&& after.len() == k + if f.terminal {
        1int
    } else {
        0int
    }
    &&& after.take(n) == before
    &&& is_web_search(after[n])
    &&& f.rag ==> is_rag_search(after[n + 1]) && is_rag_remember(after[n + 2])
    &&& f.terminal ==> is_terminal(after[k])
}

/// The production extensions of a build with features `f` (see
/// [`production_tools`]).
pub fn prod_register(api: &mut ExtensionApiImpl, f: ExtFeatures)
    ensures
        production_tools(old(api).tools@, final(api).tools@, f),
{
    let ghost s0 = api.tools@;
    let ghost n = s0.len() as int;
    api.register_tool(web_search_tool());
    let ghost s1 = api.tools@;
    if f.rag {
        register_rag(api);
    }
    let ghost s2 = api.tools@;
    assert(s2.take(n + 1) == s1) by {
        if f.rag {
            assert(s1.len() == n + 1);
        } else {
            assert(s2.take(n + 1) =~= s1);
        }
    }
    if f.terminal {
        api.register_tool(terminal_tool());
    }
    let ghost s3 = api.tools@;
    assert(s3.take(s2.len() as int) =~= s2);
    assert forall|j: int| 0 <= j <= n implies #[trigger] s3[j] == s1[j] by {
        assert(s3.take(s2.len() as int)[j] == s3[j]);
        assert(s2.take(n + 1)[j] == s2[j]);
    }
    assert(s3.take(n) =~= s0);
    assert(f.rag ==> s3[n + 1] == s2[n + 1] && s3[n + 2] == s2[n + 2]) by {
        if f.rag {
            assert(s3.take(s2.len() as int)[n + 1] == s3[n + 1]);
            assert(s3.take(s2.len() as int)[n + 2] == s3[n + 2]);
        }
    }
}

/// Every extension of this library with features `f`: the production set
/// (the demo extensions are not part of it).
pub fn register_all(api: &mut ExtensionApiImpl, f: ExtFeatures)
    ensures
        production_tools(old(api).tools@, final(api).tools@, f),
{
    prod_register(api, f);
}

/// A tool that runs arbitrary commands is graded `High` wherever the
/// production composition registers it.
pub proof fn lemma_terminal_is_high(before: Seq<ToolSpec>, after: Seq<ToolSpec>, f: ExtFeatures, i: int)
    requires
        production_tools(before, after, f),
        before.len() <= i < after.len(),
        after[i].name@ == "terminal"@,
    ensures
        after[i].risk == RiskLevel::High,
{
    reveal_strlit("terminal");
    reveal_strlit("web_search");
    reveal_strlit("rag_search");
    reveal_strlit("rag_remember");
    assert("terminal"@.len() != "web_search"@.len());
    assert("terminal"@.len() != "rag_search"@.len());
    assert("terminal"@.len() != "rag_remember"@.len());
}

// ---------------------------------------------------------------------------
// rag_search / rag_remember decisions
// ---------------------------------------------------------------------------

/// The most hits a search returns.
pub const MAX_K: usize = 20;

/// The most characters shown of one hit.
pub const MAX_HIT_CHARS: usize = 1600;

/// The longest note title, in characters.
pub const MAX_TITLE_CHARS: usize = 80;

/// The longest note body, in characters.
pub const MAX_CONTENT_CHARS: usize = 8000;

/// The longest note file name stem, in characters.
pub const MAX_SLUG_CHARS: usize = 60;

/// The number of hits a search asks for: the `k` argument, else the
/// configured default, clamped to `1..=20`.
pub fn search_k(k_arg: Option<usize>, top_k: usize) -> (r: usize)
    ensures
        r == ({
            let k = match k_arg {
                Some(k) => k,
                None => top_k,
            };
            if k < 1 {
                1
            } else if k > 20 {
                20
            } else {
                k
            }
        }),
{
    let k = match k_arg {
        Some(k) => k,
        None => top_k,
    };
    if k < 1 {
        1
    } else if k > MAX_K {
        MAX_K
    } else {
        k
    }
}

/// The search query: the `query` argument trimmed (absent reads as empty);
/// an empty query is refused.
pub fn search_query(raw: Option<&str>) -> (r: Result<String, String>)
    ensures
        match raw {
            Some(q) => if trimmed(q@).len() > 0 {
                r matches Ok(t) && t@ == trimmed(q@)
            } else {
                r matches Err(m) && m@ == "query 不能为空"@
            },
            None => r matches Err(m) && m@ == "query 不能为空"@,
        },
{
    match raw {
        Some(q) => {
            let t = trim(q);
            if t.as_str().is_empty() {
                Err("query 不能为空".to_owned())
            } else {
                Ok(t)
            }
        },
        None => Err("query 不能为空".to_owned()),
    }
}

/// The source filter: the `source` argument trimmed, when not empty.
pub fn search_source(raw: Option<&str>) -> (r: Option<String>)
    ensures
        match raw {
            Some(s) => if trimmed(s@).len() > 0 {
                r matches Some(t) && t@ == trimmed(s@)
            } else {
                r is None
            },
            None => r is None,
        },
{
    match raw {
        Some(s) => {
            let t = trim(s);
            if t.as_str().is_empty() {
                None
            } else {
                Some(t)
            }
        },
        None => None,
    }
}

/// The message of a title that is empty or too long.
pub open spec fn bad_title_message() -> Seq<char> {
    "title 不能为空且不超过 "@ + dec(80) + " 字符"@
}

/// The message of a body that is empty or too long.
pub open spec fn bad_content_message() -> Seq<char> {
    "content 不能为空且不超过 "@ + dec(8000) + " 字符"@
}

/// The arguments of `rag_remember`: title and content trimmed (absent
/// reads as empty); the title must hold 1 to 80 characters and the content
/// 1 to 8000.
pub fn remember_args(title: Option<&str>, content: Option<&str>) -> (r: Result<(String, String), String>)
    ensures
        ({
            let t = match title {
                Some(x) => trimmed(x@),
                None => Seq::empty(),
            };
            let c = match content {
                Some(x) => trimmed(x@),
                None => Seq::empty(),
            };
            if t.len() == 0 || t.len() > 80 {
                r matches Err(m) && m@ == bad_title_message()
            } else if c.len() == 0 || c.len() > 8000 {
                r matches Err(m) && m@ == bad_content_message()
            } else {
                r matches Ok((a, b)) && a@ == t && b@ == c
            }
        }),
{
    let t = match title {
        Some(x) => trim(x),
        None => String::new(),
    };
    let c = match content {
        Some(x) => trim(x),
        None => String::new(),
    };
    let tn = t.as_str().unicode_len();
    if tn == 0 || tn > MAX_TITLE_CHARS {
        let mut m = "title 不能为空且不超过 ".to_owned();
        m.append(u64_to_decimal(MAX_TITLE_CHARS as u64).as_str());
        m.append(" 字符");
        return Err(m);
    }
    let cn = c.as_str().unicode_len();
    if cn == 0 || cn > MAX_CONTENT_CHARS {
        let mut m = "content 不能为空且不超过 ".to_owned();
        m.append(u64_to_decimal(MAX_CONTENT_CHARS as u64).as_str());
        m.append(" 字符");
        return Err(m);
    }
    Ok((t, c))
}

/// Whether a character is alphanumeric as `char::is_alphanumeric` says
/// (Unicode `Alphabetic` or `Numeric`).
pub uninterp spec fn alphanumeric(c: char) -> bool;

/// `char::is_alphanumeric`, whose Unicode tables are left to the name.
#[verifier::external_body]
fn is_alphanumeric(c: char) -> (r: bool)
    ensures
        r == alphanumeric(c),
{
    c.is_alphanumeric()
}

/// The slug built from `cs[i..]` given the slug so far and whether a
/// separator is pending: alphanumerics are kept, each run of other
/// characters becomes one `-` between kept ones.
pub open spec fn slug_from(cs: Seq<char>, i: int, out: Seq<char>, dash: bool) -> Seq<char>
    decreases cs.len() - i,
{
    if i < 0 || i >= cs.len() {
        out
    } else if alphanumeric(cs[i]) {
        let o = if dash && out.len() > 0 {
            out.push('-')
        } else {
            out
        };
        slug_from(cs, i + 1, o.push(cs[i]), false)
    } else {
        slug_from(cs, i + 1, out, true)
    }
}

/// A file-name slug for a title: the trimmed title's alphanumerics (any
/// script), separators collapsed to `-`, at most 60 characters.
pub open spec fn slug(title: Seq<char>) -> Seq<char> {
    let s = slug_from(trimmed(title), 0, Seq::empty(), false);
    if s.len() <= 60 {
        s
    } else {
        s.take(60)
    }
}

/// The slug of a title (see [`slug`]); empty when nothing is kept.
pub fn slugify(title: &str) -> (r: String)
    ensures
        r@ == slug(title@),
{
    let t = trim(title);
    let cs = chars_of(t.as_str());
    let mut out: Vec<char> = Vec::new();
    let mut dash = false;
    let mut i: usize = 0;
    while i < cs.len()
        invariant
            cs@ == trimmed(title@),
            0 <= i <= cs.len(),
            slug_from(cs@, i as int, out@, dash) == slug_from(cs@, 0, Seq::empty(), false),
        decreases cs.len() - i,
    {
        let c = cs[i];
        if is_alphanumeric(c) {
            if dash && out.len() > 0 {
                out.push('-');
            }
            dash = false;
            out.push(c);
        } else {
            dash = true;
        }
        i = i + 1;
    }
    let n = if out.len() <= MAX_SLUG_CHARS {
        out.len()
    } else {
        MAX_SLUG_CHARS
    };
    let r = string_of(&out, 0, n);
    assert(out@.subrange(0, n as int) =~= if out@.len() <= 60 {
        out@
    } else {
        out@.take(60)
    });
    r
}

/// Where a note lives: `{base}/notes`, the base being the built-in
/// sources' root, or the configuration directory when built-ins are
/// disabled.
pub fn notes_dir(builtin_base: Option<&str>, config_dir: &str) -> (r: String)
    ensures
        r@ == path_join(
            match builtin_base {
                Some(b) => b@,
                None => config_dir@,
            },
            "notes"@,
        ),
{
    match builtin_base {
        Some(b) => join_path(b, "notes"),
        None => join_path(config_dir, "notes"),
    }
}

/// A note's file: `{dir}/{slug}.md`, the slug falling back to `note`.
pub fn note_path(dir: &str, title: &str) -> (r: String)
    ensures
        r@ == path_join(
            dir@,
            (if slug(title@).len() == 0 {
                "note"@
            } else {
                slug(title@)
            }) + ".md"@,
        ),
{
    let s = slugify(title);
    let mut name = if s.as_str().is_empty() {
        "note".to_owned()
    } else {
        s
    };
    name.append(".md");
    join_path(dir, name.as_str())
}

/// The text shown of a hit: the whole text when it has at most `max`
/// characters, else its first `max` followed by a truncation notice.
pub open spec fn capped(s: Seq<char>, max: nat) -> Seq<char> {
    if s.len() <= max {
        s
    } else {
        s.take(max as int) + "\n…(片段过长已截断)"@
    }
}

/// Character-safe truncation (see [`capped`]).
pub fn cap_chars(s: &str, max: usize) -> (r: String)
    ensures
        r@ == capped(s@, max as nat),
{
    let cs = chars_of(s);
    if cs.len() <= max {
        return s.to_owned();
    }
    let mut out = string_of(&cs, 0, max);
    out.append("\n…(片段过长已截断)");
    out
}

/// A path is absolute when it starts with `/`.
pub open spec fn is_absolute(p: Seq<char>) -> bool {
    p.len() > 0 && p[0] == '/'
}

/// The path a hit is shown under: as stored when absolute; else joined to
/// its source's root when the source is configured; else as stored.
pub fn display_path(cfg: &RagConfig, source: &str, path: &str) -> (r: String)
    ensures
        r@ == if is_absolute(path@) {
            path@
        } else {
            match cfg.sources.get_spec(source@) {
                Some(src) => path_join(src.path@, path@),
                None => path@,
            }
        },
{
    let cs = chars_of(path);
    if cs.len() > 0 && cs[0] == '/' {
        return path.to_owned();
    }
    match cfg.sources.get(source) {
        Some(src) => join_path(src.path.as_str(), path),
        None => path.to_owned(),
    }
}

/// A hit as the search answer lists it: the score already rendered with
/// three decimals.
#[derive(Debug, Clone)]
pub struct HitLine {
    pub score: String,
    pub source: String,
    pub path: String,
    pub ordinal: usize,
    pub content: String,
}

/// The line of hit `h`, numbered `i + 1`: rank, score, source, path and
/// chunk number, then the capped text.
pub open spec fn hit_line_text(i: int, h: HitLine) -> Seq<char> {
    "["@ + dec((i + 1) as nat) + "] score="@ + h.score@ + " "@ + h.source@ + " "@ + h.path@
        + " (片段 "@ + dec((h.ordinal + 1) as nat) + ")\n"@ + capped(h.content@, 1600) + "\n\n"@
}

/// The lines of hits `hs[i..]`, numbered from `i + 1`.
pub open spec fn hit_lines(hs: Seq<HitLine>, i: int) -> Seq<char>
    decreases hs.len() - i,
{
    if i < 0 || i >= hs.len() {
        Seq::empty()
    } else {
        hit_line_text(i, hs[i]) + hit_lines(hs, i + 1)
    }
}

fn hit_line(i: usize, h: &HitLine) -> (r: String)
    requires
        i < usize::MAX,
        h.ordinal < usize::MAX,
    ensures
        r@ == hit_line_text(i as int, *h),
{
    let mut out = "[".to_owned();
    out.append(u64_to_decimal((i + 1) as u64).as_str());
    out.append("] score=");
    out.append(h.score.as_str());
    out.append(" ");
    out.append(h.source.as_str());
    out.append(" ");
    out.append(h.path.as_str());
    out.append(" (片段 ");
    out.append(u64_to_decimal((h.ordinal + 1) as u64).as_str());
    out.append(")\n");
    let c = cap_chars(h.content.as_str(), MAX_HIT_CHARS);
    out.append(c.as_str());
    out.append("\n\n");
    out
}

/// The answer of a search with hits: a count line naming the index's
/// embedding model, each hit, and a follow-up hint.
pub open spec fn hits_text(model: Seq<char>, hs: Seq<HitLine>) -> Seq<char> {
    "找到 "@ + dec(hs.len()) + " 条相关片段(索引模型 "@ + model + "):\n\n"@ + hit_lines(hs, 0)
        + "提示:完整文件可用 read 工具读取;索引基于上次 ingest,最新内容以磁盘为准。"@
}

/// Render the hits of a search (see [`hits_text`]).
pub fn format_hits(model: &str, hits: &Vec<HitLine>) -> (r: String)
    requires
        hits.len() < usize::MAX,
        forall|i: int| 0 <= i < hits.len() ==> (#[trigger] hits@[i]).ordinal < usize::MAX,
    ensures
        r@ == hits_text(model@, hits@),
{
    let mut out = "找到 ".to_owned();
    out.append(u64_to_decimal(hits.len() as u64).as_str());
    out.append(" 条相关片段(索引模型 ");
    out.append(model);
    out.append("):\n\n");
    let ghost head = out@;
    let mut i: usize = 0;
    while i < hits.len()
        invariant
            hits.len() < usize::MAX,
            forall|j: int| 0 <= j < hits.len() ==> (#[trigger] hits@[j]).ordinal < usize::MAX,
            0 <= i <= hits.len(),
            out@ + hit_lines(hits@, i as int) == head + hit_lines(hits@, 0),
        decreases hits.len() - i,
    {
        let ghost before = out@;
        let line = hit_line(i, &hits[i]);
        out.append(line.as_str());
        assert(out@ + hit_lines(hits@, i + 1) =~= before + hit_lines(hits@, i as int));
        i = i + 1;
    }
    out.append("提示:完整文件可用 read 工具读取;索引基于上次 ingest,最新内容以磁盘为准。");
    out
}

/// The answer of a search without hits.
pub fn no_hits_text() -> (r: String)
    ensures
        r@ == "未找到相关片段。换个说法或更具体的关键词再试。"@,
{
    "未找到相关片段。换个说法或更具体的关键词再试。".to_owned()
}

/// The error when the index has not been built.
pub fn missing_index_message(store: &str) -> (r: String)
    ensures
        r@ == "索引不存在:"@ + store@ + ". 请先运行 conga-rag ingest 建立索引"@,
{
    let mut m = "索引不存在:".to_owned();
    m.append(store);
    m.append(". 请先运行 conga-rag ingest 建立索引");
    m
}

/// The answer after a note is written and indexed.
pub fn remembered_text(title: &str, path: &str) -> (r: String)
    ensures
        r@ == "已记住:"@ + title@ + "\n文件:"@ + path@ + "\n(同 title 再次写入会覆盖;用 rag_search 检索)"@,
{
    let mut m = "已记住:".to_owned();
    m.append(title);
    m.append("\n文件:");
    m.append(path);
    m.append("\n(同 title 再次写入会覆盖;用 rag_search 检索)");
    m
}

/// The answer when the note was written but indexing it failed.
pub fn partially_remembered_text(path: &str, err: &str) -> (r: String)
    ensures
        r@ == "文件已写入 "@ + path@ + " 但索引失败:"@ + err@ + "(下次 ingest 会自动补偿)"@,
{
    let mut m = "文件已写入 ".to_owned();
    m.append(path);
    m.append(" 但索引失败:");
    m.append(err);
    m.append("(下次 ingest 会自动补偿)");
    m
}

} // verus!
