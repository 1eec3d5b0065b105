//! Host assembly decisions shared by every transport: the tool set's
//! priority order with first-registration-wins deduplication, the
//! sub-agents' tool set, the approval timeout, and session resume targets.

use vstd::prelude::*;
use crate::decimal::{parse_u64, parse_unsigned};
use crate::ext::ToolSpec;
use crate::paths::{join_path, path_join};
use crate::text::str_eq;
use crate::ingest::{lemma_filter_nil, lemma_filter_step};

verus! {

/// A failure to assemble a session: `Config` (provider or environment
/// setup is broken) or `Session` (the session's log refuses to load).
#[derive(Debug)]
pub enum AssemblyError {
    Config(String),
    Session(String),
}

impl AssemblyError {
    /// The displayed message.
    pub fn message(&self) -> (r: String)
        ensures
            r@ == match self {
                AssemblyError::Config(m) => "Config error: "@ + m@,
                AssemblyError::Session(m) => "Session error: "@ + m@,
            },
    {
        match self {
            AssemblyError::Config(m) => {
                let mut s = "Config error: ".to_owned();
                s.append(m.as_str());
                s
            },
            AssemblyError::Session(m) => {
                let mut s = "Session error: ".to_owned();
                s.append(m.as_str());
                s
            },
        }
    }
}

/// Whether a tool named like `tools[i]` comes before `i`.
pub open spec fn shadowed(names: Seq<Seq<char>>, i: int) -> bool {
    exists|j: int| 0 <= j < i && names[j] == names[i]
}

/// The indices of `names[..n]` that are first registrations, in order.
pub open spec fn first_registrations(names: Seq<Seq<char>>, n: int) -> Seq<int>
    decreases n,
{
    if n <= 0 {
        seq![]
    } else {
        first_registrations(names, n - 1) + if shadowed(names, n - 1) {
            seq![]
        } else {
            seq![n - 1]
        }
    }
}

/// Tool names as values.
pub open spec fn tool_names(ts: Seq<ToolSpec>) -> Seq<Seq<char>> {
    ts.map_values(|t: ToolSpec| t.name@)
}

/// `ts` with every tool whose name an earlier tool already has dropped.
pub open spec fn deduped(ts: Seq<ToolSpec>) -> Seq<ToolSpec> {
    first_registrations(tool_names(ts), ts.len() as int).map_values(|i: int| ts[i])
}

/// The tool set with duplicates dropped: the first registration of a name
/// wins (the assembly order is the priority), later tools of the same name
/// are dropped.
pub fn dedup_tool_names(tools: Vec<ToolSpec>) -> (r: Vec<ToolSpec>)
    ensures
        r@ == deduped(tools@),
{
    let ghost names = tool_names(tools@);
    let mut out: Vec<ToolSpec> = Vec::new();
    let mut i: usize = 0;
    let n = tools.len();
    assert(out@ =~= first_registrations(names, 0).map_values(|k: int| tools@[k]));
    while i < n
        invariant
            n == tools.len(),
            names == tool_names(tools@),
            0 <= i <= n,
            out@ == first_registrations(names, i as int).map_values(|k: int| tools@[k]),
            forall|j: int| 0 <= j < out.len() ==> exists|k: int| 0 <= k < i && #[trigger] out@[j] == tools@[k],
            forall|k: int| 0 <= k < i ==> #[trigger] tool_names(out@).contains(names[k]),
        decreases n - i,
    {
        let mut seen = false;
        let mut j: usize = 0;
        while j < out.len()
            invariant
                0 <= j <= out.len(),
                i < n,
                n == tools.len(),
                names == tool_names(tools@),
                seen == exists|m: int| 0 <= m < j && out@[m].name@ == names[i as int],
            decreases out.len() - j,
        {
            if str_eq(out[j].name.as_str(), tools[i].name.as_str()) {
                seen = true;
            }
            assert(seen == exists|m: int| 0 <= m < j + 1 && out@[m].name@ == names[i as int]) by {
                if exists|m: int| 0 <= m < j + 1 && out@[m].name@ == names[i as int] {
                    let m = choose|m: int| 0 <= m < j + 1 && out@[m].name@ == names[i as int];
                    if m < j {
                    }
                }
            }
            j = j + 1;
        }
        assert(seen == shadowed(names, i as int)) by {
            if seen {
                let m = choose|m: int| 0 <= m < out.len() && out@[m].name@ == names[i as int];
                let k = choose|k: int| 0 <= k < i && #[trigger] out@[m] == tools@[k];
                assert(names[k] == names[i as int]);
            }
            if shadowed(names, i as int) {
                let k = choose|k: int| 0 <= k < i && names[k] == names[i as int];
                assert(tool_names(out@).contains(names[k]));
                let m = choose|m: int| 0 <= m < out.len() && tool_names(out@)[m] == names[k];
                assert(out@[m].name@ == names[i as int]);
            }
        }
        let ghost before = out@;
        if !seen {
            out.push(tools[i].copied());
        }
        assert(out@ =~= first_registrations(names, i + 1).map_values(|k: int| tools@[k]));
        assert forall|k: int| 0 <= k < i + 1 implies #[trigger] tool_names(out@).contains(names[k]) by {
            if k < i {
                assert(tool_names(before).contains(names[k]));
                let m = choose|m: int| 0 <= m < before.len() && tool_names(before)[m] == names[k];
                assert(tool_names(out@)[m] == names[k]);
            } else if seen {
                let m = choose|m: int| 0 <= m < before.len() && before[m].name@ == names[i as int];
                assert(tool_names(out@)[m] == names[k]);
            } else {
                assert(tool_names(out@)[before.len() as int] == names[k]);
            }
        }
        i = i + 1;
    }
    out
}

proof fn lemma_first_registrations(names: Seq<Seq<char>>, n: int)
    requires
        0 <= n <= names.len(),
    ensures
        forall|p: int|
            0 <= p < first_registrations(names, n).len() ==> 0 <= #[trigger] first_registrations(
                names,
                n,
            )[p] < n && !shadowed(names, first_registrations(names, n)[p]),
        forall|p: int, q: int|
            0 <= p < q < first_registrations(names, n).len() ==> #[trigger] first_registrations(
                names,
                n,
            )[p] < #[trigger] first_registrations(names, n)[q],
        forall|k: int|
            0 <= k < n && !shadowed(names, k) ==> #[trigger] first_registrations(
                names,
                n,
            ).contains(k),
    decreases n,
{
    if n > 0 {
        lemma_first_registrations(names, n - 1);
        let prev = first_registrations(names, n - 1);
        let cur = first_registrations(names, n);
        assert forall|k: int| 0 <= k < n && !shadowed(names, k) implies #[trigger] cur.contains(k) by {
            if k < n - 1 {
                assert(prev.contains(k));
                let p = choose|p: int| 0 <= p < prev.len() && prev[p] == k;
                assert(cur[p] == k);
            } else {
                assert(cur[prev.len() as int] == k);
            }
        }
        assert forall|p: int, q: int| 0 <= p < q < cur.len() implies #[trigger] cur[p] < #[trigger] cur[q] by {
            if q < prev.len() {
                assert(cur[p] == prev[p] && cur[q] == prev[q]);
            } else {
                assert(cur[p] == prev[p]);
            }
        }
        assert forall|p: int| 0 <= p < cur.len() implies 0 <= #[trigger] cur[p] < n && !shadowed(names, cur[p]) by {
            if p < prev.len() {
                assert(cur[p] == prev[p]);
            }
        }
    }
}

/// First registration wins: after deduplication no two tools share a name,
/// every name of the input is still offered, and each kept tool is a tool
/// of the input that no earlier tool shares a name with.
pub proof fn lemma_dedup_first_wins(ts: Seq<ToolSpec>)
    ensures
        forall|p: int, q: int|
            0 <= p < q < deduped(ts).len() ==> (#[trigger] deduped(ts)[p]).name@
                != (#[trigger] deduped(ts)[q]).name@,
        forall|k: int|
            0 <= k < ts.len() ==> tool_names(deduped(ts)).contains((#[trigger] ts[k]).name@),
        forall|p: int, k: int|
            0 <= p < deduped(ts).len() && 0 <= k < ts.len() && !shadowed(tool_names(ts), k) && (
            #[trigger] ts[k]).name@ == (#[trigger] deduped(ts)[p]).name@ ==> deduped(ts)[p] == ts[k],
{
    let names = tool_names(ts);
    let n = ts.len() as int;
    let fr = first_registrations(names, n);
    lemma_first_registrations(names, n);
    let d = deduped(ts);
    assert(d.len() == fr.len());
    assert forall|p: int| 0 <= p < d.len() implies #[trigger] d[p] == ts[fr[p]] by {}
    assert forall|p: int, q: int| 0 <= p < q < d.len() implies (#[trigger] d[p]).name@ != (
    #[trigger] d[q]).name@ by {
        assert(fr[p] < fr[q]);
        assert(!shadowed(names, fr[q]));
        assert(names[fr[p]] == d[p].name@);
        assert(names[fr[q]] == d[q].name@);
    }
    assert forall|k: int| 0 <= k < ts.len() implies tool_names(d).contains((#[trigger] ts[k]).name@) by {
        lemma_first_of(names, k);
        let first = choose|m: int| #![trigger names[m]] 0 <= m <= k && names[m] == names[k] && forall|j: int|
            0 <= j < m ==> names[j] != names[k];
        assert(!shadowed(names, first));
        assert(fr.contains(first));
        let p = choose|p: int| 0 <= p < fr.len() && fr[p] == first;
        assert(d[p] == ts[first]);
        assert(tool_names(d)[p] == names[k]);
    }
    assert forall|p: int, k: int|
        0 <= p < d.len() && 0 <= k < ts.len() && !shadowed(names, k) && (#[trigger] ts[k]).name@
            == (#[trigger] d[p]).name@ implies d[p] == ts[k] by {
        let f = fr[p];
        assert(d[p] == ts[f]);
        assert(!shadowed(names, f));
        assert(names[f] == names[k]);
        if f < k {
            assert(shadowed(names, k));
        } else if k < f {
            assert(shadowed(names, f));
        }
    }
}

/// Every position has a first position with the same name at or before it.
proof fn lemma_first_of(names: Seq<Seq<char>>, k: int)
    requires
        0 <= k < names.len(),
    ensures
        exists|m: int| #![trigger names[m]] 0 <= m <= k && names[m] == names[k] && forall|j: int|
            0 <= j < m ==> names[j] != names[k],
    decreases k,
{
    if shadowed(names, k) {
        let j = choose|j: int| 0 <= j < k && names[j] == names[k];
        lemma_first_of(names, j);
        let m = choose|m: int| #![trigger names[m]] 0 <= m <= j && names[m] == names[j] && forall|i: int|
            0 <= i < m ==> names[i] != names[j];
        assert(names[m] == names[k]);
    } else {
        assert(names[k] == names[k]);
    }
}

/// The tool set every host assembles: built-in first, then `prepend`,
/// external, MCP and `append`, in that priority, with later same-name tools
/// dropped.
pub fn assemble_tool_set(
    built_in: Vec<ToolSpec>,
    prepend: Vec<ToolSpec>,
    external: Vec<ToolSpec>,
    mcp: Vec<ToolSpec>,
    append: Vec<ToolSpec>,
) -> (r: Vec<ToolSpec>)
    ensures
        r@ == deduped(built_in@ + prepend@ + external@ + mcp@ + append@),
{
    let mut all = built_in;
    let mut p = prepend;
    let mut e = external;
    let mut m = mcp;
    let mut a = append;
    all.append(&mut p);
    all.append(&mut e);
    all.append(&mut m);
    all.append(&mut a);
    dedup_tool_names(all)
}

/// Whether a sub-agent may hold `t`: any tool but the one that spawns
/// sub-agents.
pub open spec fn subagent_may_use(t: ToolSpec) -> bool {
    t.name@ != "spawn_subagents"@
}

/// The sub-agents' tool set: the built-in set, in order, minus the tool
/// that spawns sub-agents (nesting is disabled).
pub fn subagent_tools(built_in: &Vec<ToolSpec>) -> (r: Vec<ToolSpec>)
    ensures
        r@ == built_in@.filter(|t: ToolSpec| subagent_may_use(t)),
{
    let ghost f = |t: ToolSpec| subagent_may_use(t);
    let mut out: Vec<ToolSpec> = Vec::new();
    let mut i: usize = 0;
    proof {
        lemma_filter_nil(built_in@.take(0), f);
    }
    assert(out@ =~= built_in@.take(0).filter(f));
    while i < built_in.len()
        invariant
            f == (|t: ToolSpec| subagent_may_use(t)),
            0 <= i <= built_in.len(),
            out@ == built_in@.take(i as int).filter(f),
        decreases built_in.len() - i,
    {
        let ghost t = built_in@.take(i + 1);
        proof {
            lemma_filter_step(built_in@.take(i as int), f, built_in@[i as int]);
            assert(t =~= built_in@.take(i as int).push(built_in@[i as int]));
        }
        if !str_eq(built_in[i].name.as_str(), "spawn_subagents") {
            out.push(built_in[i].copied());
        }
        i = i + 1;
    }
    assert(built_in@.take(built_in.len() as int) =~= built_in@);
    out
}

/// How long an approval waits for a decision, in seconds: the value of
/// the timeout variable when it parses as a `u64`, else 300.
pub fn approval_timeout_secs(var: Option<&str>) -> (r: u64)
    ensures
        r == match var {
            Some(v) => match parse_unsigned(v@) {
                Some(n) => if n <= u64::MAX { n as u64 } else { 300u64 },
                None => 300u64,
            },
            None => 300u64,
        },
{
    match var {
        Some(v) => match parse_u64(v) {
            Some(n) => n,
            None => 300,
        },
        None => 300,
    }
}

/// Which session a resume request names.
#[derive(Debug, PartialEq, Eq)]
pub enum ResumeTarget {
    /// The most recently used session.
    Last,
    /// The session with this id.
    Id(String),
}

/// `last` names the most recent session; anything else is a session id.
pub fn resume_target(r: &str) -> (t: ResumeTarget)
    ensures
        match t {
            ResumeTarget::Last => r@ == "last"@,
            ResumeTarget::Id(id) => r@ != "last"@ && id@ == r@,
        },
{
    if str_eq(r, "last") {
        ResumeTarget::Last
    } else {
        ResumeTarget::Id(r.to_owned())
    }
}

/// Where a session's sub-agent transcripts go: `sub` under the session's
/// own directory below the store root.
pub fn sub_log_root(store_root: &str, session_id: &str) -> (r: String)
    ensures
        r@ == path_join(path_join(store_root@, session_id@), "sub"@),
{
    let dir = join_path(store_root, session_id);
    join_path(dir.as_str(), "sub")
}

/// What a session assembly does first: a configuration that failed to load
/// refuses the session (`Config`) before its log is read; otherwise the log
/// is resumed next.
pub fn config_gate(config_error: Option<&str>) -> (r: Result<(), AssemblyError>)
    ensures
        match config_error {
            Some(e) => r matches Err(AssemblyError::Config(m)) && m@ == e@,
            None => r is Ok,
        },
{
    match config_error {
        Some(e) => Err(AssemblyError::Config(e.to_owned())),
        None => Ok(()),
    }
}

/// A gate in the host's hook stack.
#[derive(Debug, Clone, Copy, PartialEq, Eq, Structural)]
pub enum HookSlot {
    /// The caller's in-process gate `i`, in the order given.
    Extra(usize),
    /// The repository's process hooks, when a hooks file exists.
    Process,
    /// The permission policy.
    Policy,
}

/// The order of the host's hook stack: the caller's gates first, then the
/// process hooks when there are any, and the permission policy last, so no
/// gate that fails open can bypass it.
pub fn hook_order(extra: usize, process: bool) -> (r: Vec<HookSlot>)
    ensures
        r@.len() == extra + (if process {
            1int
        } else {
            0int
        }) + 1,
        forall|i: int| 0 <= i < extra ==> #[trigger] r@[i] == HookSlot::Extra(i as usize),
        process ==> r@[extra as int] == HookSlot::Process,
        r@[r@.len() - 1] == HookSlot::Policy,
{
    let mut v: Vec<HookSlot> = Vec::new();
    let mut i: usize = 0;
    while i < extra
        invariant
            0 <= i <= extra,
            v@.len() == i,
            forall|j: int| 0 <= j < i ==> #[trigger] v@[j] == HookSlot::Extra(j as usize),
        decreases extra - i,
    {
        v.push(HookSlot::Extra(i));
        i = i + 1;
    }
    if process {
        v.push(HookSlot::Process);
    }
    v.push(HookSlot::Policy);
    v
}

/// What the `CONGA_FAST_LLM_*` variables give: a complete provider, none
/// set, or a partial set (with why it is incomplete).
#[derive(Debug)]
pub enum FastEnv {
    Complete,
    Unset,
    Partial(String),
}

/// Which provider sub-agents run on.
#[derive(Debug, Clone, Copy, PartialEq, Eq, Structural)]
pub enum FastSource {
    /// The fast provider of the settings file.
    Settings,
    /// The fast provider of the environment.
    Env,
    /// The main model.
    Main,
}

/// Route sub-agents: the settings file's fast provider wins, then a
/// complete environment set; a partial set keeps the main model with a
/// warning (a typo must not pass silently).
pub fn fast_provider_choice(settings: bool, env: &FastEnv) -> (r: (FastSource, Option<String>))
    ensures
        settings ==> r.0 == FastSource::Settings && r.1 is None,
        !settings ==> match env {
            FastEnv::Complete => r.0 == FastSource::Env && r.1 is None,
            FastEnv::Unset => r.0 == FastSource::Main && r.1 is None,
            FastEnv::Partial(e) => r.0 == FastSource::Main && (r.1 matches Some(w) && w@
                == "(warning: CONGA_FAST_LLM_* incomplete, sub-agents keep the main model: "@ + e@ + ")"@),
        },
{
    if settings {
        return (FastSource::Settings, None);
    }
    match env {
        FastEnv::Complete => (FastSource::Env, None),
        FastEnv::Unset => (FastSource::Main, None),
        FastEnv::Partial(e) => {
            let mut w = "(warning: CONGA_FAST_LLM_* incomplete, sub-agents keep the main model: ".to_owned();
            w.append(e.as_str());
            w.append(")");
            (FastSource::Main, Some(w))
        },
    }
}

} // verus!
