//! What an event-sourced session store writes for one event: the name of
//! the event's kind, the kind-specific columns, the branch it lands on, and
//! the session's branch heads (a JSON object of branch name to the id of the
//! branch's newest event).

use vstd::prelude::*;
use crate::decimal::{dec, u64_to_decimal};
use crate::name_map::{lemma_ascending_determined, lookup, lookup_by, names_ascend, NameMap};
use crate::text::str_eq;

verus! {

/// How a summary event chose what it covers.
#[derive(Debug)]
pub enum SummaryKind {
    TimeWindow { duration_hours: u64 },
    Topic { topic: String },
    Compression { token_budget: u64 },
}

/// The kind of a session event, with the values the store writes for it.
/// `arguments` is the compact JSON rendering of a tool call's arguments;
/// ids are rendered as text.
#[derive(Debug)]
pub enum EventKind {
    UserMessage,
    AssistantMessage,
    ToolCall { tool_name: String, arguments: String },
    ToolResult { tool_call_id: String, tool_name: String, is_error: bool },
    Summary { summary_type: SummaryKind, covered_event_ids: Vec<String> },
    Merge { source_branch: String, source_head: String },
}

/// The stored name of an event kind.
pub open spec fn event_type_text(e: EventKind) -> Seq<char> {
    match e {
        EventKind::UserMessage => "user_message"@,
        EventKind::AssistantMessage => "assistant_message"@,
        EventKind::ToolCall { .. } => "tool_call"@,
        EventKind::ToolResult { .. } => "tool_result"@,
        EventKind::Summary { .. } => "summary"@,
        EventKind::Merge { .. } => "merge"@,
    }
}

/// The stored name of `e`'s kind.
pub fn event_type_name(e: &EventKind) -> (r: String)
    ensures
        r@ == event_type_text(*e),
{
    match e {
        EventKind::UserMessage => "user_message".to_owned(),
        EventKind::AssistantMessage => "assistant_message".to_owned(),
        EventKind::ToolCall { .. } => "tool_call".to_owned(),
        EventKind::ToolResult { .. } => "tool_result".to_owned(),
        EventKind::Summary { .. } => "summary".to_owned(),
        EventKind::Merge { .. } => "merge".to_owned(),
    }
}

/// The text of an optional string.
pub open spec fn opt_text(o: Option<String>) -> Option<Seq<char>> {
    match o {
        Some(s) => Some(s@),
        None => None,
    }
}

/// The JSON text `serde_json::to_string` gives for one string (quoted and
/// escaped).
pub uninterp spec fn json_string(s: Seq<char>) -> Option<Seq<char>>;

/// The JSON texts of the strings, separated by commas; `None` when one of
/// them has none.
pub open spec fn string_list_body(items: Seq<Seq<char>>) -> Option<Seq<char>>
    decreases items.len(),
{
    if items.len() == 0 {
        Some(Seq::empty())
    } else {
        match (string_list_body(items.drop_last()), json_string(items.last())) {
            (Some(front), Some(x)) => Some(
                front + (if items.len() > 1 {
                    ","@
                } else {
                    Seq::empty()
                }) + x,
            ),
            _ => None,
        }
    }
}

/// The compact JSON array of the strings: `[`, each string's JSON text,
/// separated by commas, `]`.
pub open spec fn json_string_list(items: Seq<Seq<char>>) -> Option<Seq<char>> {
    match string_list_body(items) {
        Some(b) => Some("["@ + b + "]"@),
        None => None,
    }
}

/// `serde_json::to_string` of a list of strings, `None` on its error:
/// serde_json writes a sequence as a compact array (`[`, elements separated
/// by `,`, `]`), each string as [`json_string`] names it.
#[verifier::external_body]
fn json_list_text(items: &Vec<String>) -> (r: Option<String>)
    ensures
        opt_text(r) == json_string_list(items@.map_values(|s: String| s@)),
{
    serde_json::to_string(items).ok()
}

/// `serde_json::to_string` of one string (its quoted, escaped JSON form),
/// `None` on its error: the result is named by [`json_string`].
#[verifier::external_body]
fn json_text(s: &str) -> (r: Option<String>)
    ensures
        opt_text(r) == json_string(s@),
{
    serde_json::to_string(s).ok()
}

/// The kind-specific columns of a stored event; each is absent unless the
/// kind has it.
#[derive(Debug)]
pub struct EventFields {
    pub tool_name: Option<String>,
    pub tool_arguments: Option<String>,
    pub tool_call_id: Option<String>,
    pub is_error: Option<i32>,
    pub summary_type: Option<String>,
    pub summary_topic: Option<String>,
    pub covered_events: Option<String>,
    pub merge_source: Option<String>,
    pub merge_head: Option<String>,
}

/// The stored text of a summary's kind.
pub open spec fn summary_type_text(k: SummaryKind) -> Seq<char> {
    match k {
        SummaryKind::TimeWindow { duration_hours } => "time_window:"@ + dec(duration_hours as nat),
        SummaryKind::Topic { .. } => "topic"@,
        SummaryKind::Compression { token_budget } => "compression:"@ + dec(token_budget as nat),
    }
}

/// The stored topic of a summary: only a topic summary has one.
pub open spec fn summary_topic_text(k: SummaryKind) -> Option<Seq<char>> {
    match k {
        SummaryKind::Topic { topic } => Some(topic@),
        _ => None,
    }
}

/// Whether `f` holds exactly the columns the store writes for `e`.
pub open spec fn fields_of(f: EventFields, e: EventKind) -> bool {
    let tool_name = match e {
        EventKind::ToolCall { tool_name, .. } => Some(tool_name@),
        EventKind::ToolResult { tool_name, .. } => Some(tool_name@),
        _ => None,
    };
    let tool_arguments = match e {
        EventKind::ToolCall { arguments, .. } => Some(arguments@),
        _ => None,
    };
    let tool_call_id = match e {
        EventKind::ToolResult { tool_call_id, .. } => Some(tool_call_id@),
        _ => None,
    };
    let is_error = match e {
        EventKind::ToolResult { is_error, .. } => Some(if is_error { 1i32 } else { 0i32 }),
        _ => None,
    };
    let summary_type = match e {
        EventKind::Summary { summary_type, .. } => Some(summary_type_text(summary_type)),
        _ => None,
    };
    let summary_topic = match e {
        EventKind::Summary { summary_type, .. } => summary_topic_text(summary_type),
        _ => None,
    };
    let covered_events = match e {
        EventKind::Summary { covered_event_ids, .. } => json_string_list(
            covered_event_ids@.map_values(|s: String| s@),
        ),
        _ => None,
    };
    let merge_source = match e {
        EventKind::Merge { source_branch, .. } => Some(source_branch@),
        _ => None,
    };
    let merge_head = match e {
        EventKind::Merge { source_head, .. } => Some(source_head@),
        _ => None,
    };
    &&& opt_text(f.tool_name) == tool_name
    &&& opt_text(f.tool_arguments) == tool_arguments
    &&& f.is_error == is_error
    &&& opt_text(f.tool_call_id) == tool_call_id
    &&& opt_text(f.summary_type) == summary_type
    &&& opt_text(f.summary_topic) == summary_topic
    &&& opt_text(f.covered_events) == covered_events
    &&& opt_text(f.merge_source) == merge_source
    &&& opt_text(f.merge_head) == merge_head
}

/// The stored error flag follows the event: a tool result's `is_error`
/// column is 1 when the result is an error and 0 when it is not, and it
/// carries the result's tool name and call id; no other kind sets the flag.
pub proof fn lemma_error_flag_stored(f: EventFields, e: EventKind)
    requires
        fields_of(f, e),
    ensures
        f.is_error == Some(1i32) <==> (e matches EventKind::ToolResult { is_error, .. } && is_error),
        f.is_error == Some(0i32) <==> (e matches EventKind::ToolResult { is_error, .. } && !is_error),
        f.is_error is None <==> !(e is ToolResult),
        e matches EventKind::ToolResult { tool_name, tool_call_id, .. } ==> opt_text(f.tool_name) == Some(
            tool_name@,
        ) && opt_text(f.tool_call_id) == Some(tool_call_id@),
{
}

/// Each kind's values go to their own columns: a tool call's name and
/// arguments, a tool result's name and call id, a merge's source branch and
/// source head; messages set no kind-specific column.
pub proof fn lemma_columns_follow_event(f: EventFields, e: EventKind)
    requires
        fields_of(f, e),
    ensures
        e matches EventKind::ToolCall { tool_name, arguments } ==> opt_text(f.tool_name) == Some(tool_name@)
            && opt_text(f.tool_arguments) == Some(arguments@) && f.tool_call_id is None && f.is_error is None,
        e matches EventKind::Merge { source_branch, source_head } ==> opt_text(f.merge_source) == Some(
            source_branch@,
        ) && opt_text(f.merge_head) == Some(source_head@) && f.tool_name is None,
        (e is UserMessage || e is AssistantMessage) ==> f.tool_name is None && f.tool_arguments is None
            && f.tool_call_id is None && f.is_error is None && f.summary_type is None && f.summary_topic is None
            && f.covered_events is None && f.merge_source is None && f.merge_head is None,
        !(e is ToolCall) ==> f.tool_arguments is None,
        !(e is Merge) ==> f.merge_source is None && f.merge_head is None,
        !(e is Summary) ==> f.summary_type is None && f.covered_events is None,
{
}

/// No kind-specific column set.
pub fn no_fields() -> (r: EventFields)
    ensures
        fields_of(r, EventKind::UserMessage),
{
    EventFields {
        tool_name: None,
        tool_arguments: None,
        tool_call_id: None,
        is_error: None,
        summary_type: None,
        summary_topic: None,
        covered_events: None,
        merge_source: None,
        merge_head: None,
    }
}

/// The kind-specific columns the store writes for `e`.
pub fn extract_event_fields(e: &EventKind) -> (r: EventFields)
    ensures
        fields_of(r, *e),
{
    match e {
        EventKind::ToolCall { tool_name, arguments } => {
            let mut f = no_fields();
            f.tool_name = Some(tool_name.clone());
            f.tool_arguments = Some(arguments.clone());
            f
        },
        EventKind::ToolResult { tool_call_id, tool_name, is_error } => {
            let mut f = no_fields();
            f.tool_name = Some(tool_name.clone());
            f.tool_call_id = Some(tool_call_id.clone());
            f.is_error = Some(if *is_error { 1 } else { 0 });
            f
        },
        EventKind::Summary { summary_type, covered_event_ids } => {
            let mut f = no_fields();
            match summary_type {
                SummaryKind::TimeWindow { duration_hours } => {
                    let mut s = "time_window:".to_owned();
                    let d = u64_to_decimal(*duration_hours);
                    s.append(d.as_str());
                    f.summary_type = Some(s);
                },
                SummaryKind::Topic { topic } => {
                    f.summary_type = Some("topic".to_owned());
                    f.summary_topic = Some(topic.clone());
                },
                SummaryKind::Compression { token_budget } => {
                    let mut s = "compression:".to_owned();
                    let d = u64_to_decimal(*token_budget);
                    s.append(d.as_str());
                    f.summary_type = Some(s);
                },
            }
            f.covered_events = json_list_text(covered_event_ids);
            f
        },
        EventKind::Merge { source_branch, source_head } => {
            let mut f = no_fields();
            f.merge_source = Some(source_branch.clone());
            f.merge_head = Some(source_head.clone());
            f
        },
        _ => no_fields(),
    }
}

/// The branch an event lands on: its own, or `main`.
pub fn branch_name(branch: Option<&str>) -> (r: String)
    ensures
        r@ == match branch {
            Some(b) => b@,
            None => "main"@,
        },
{
    match branch {
        Some(b) => b.to_owned(),
        None => "main".to_owned(),
    }
}

/// A session's stored branch heads, as read back: absent or unreadable
/// (`Missing`), a JSON object of branch names to the compact JSON text of
/// each head (`Object`), or other JSON, kept as its compact text (`Other`).
#[derive(Debug)]
pub enum StoredBranches {
    Missing,
    Object(NameMap<String>),
    Other(String),
}

/// Whether `r` is `stored` after `branch`'s head moved to `head` (see
/// [`record_head`]).
pub open spec fn head_recorded(stored: StoredBranches, branch: Seq<char>, head: String, r: StoredBranches) -> bool {
    match stored {
        StoredBranches::Missing => r matches StoredBranches::Object(m) && m.get_spec(branch) == Some(head)
            && m.entries_view().len() == 1,
        StoredBranches::Object(old_m) => r matches StoredBranches::Object(m) && m.get_spec(branch) == Some(
            head,
        ) && (forall|k: Seq<char>| k != branch ==> #[trigger] m.get_spec(k) == old_m.get_spec(k))
            && names_ascend(m.entries_view()),
        StoredBranches::Other(t) => r matches StoredBranches::Other(u) && u@ == t@,
    }
}

/// The branch heads after `branch`'s head moved to the event whose JSON
/// text is `head`: a missing record starts as an empty object, an object
/// gets the entry (every other branch keeps its head), other JSON is kept
/// as it is.
pub fn record_head(stored: StoredBranches, branch: &str, head: String) -> (r: StoredBranches)
    ensures
        head_recorded(stored, branch@, head, r),
{
    match stored {
        StoredBranches::Missing => {
            let mut m: NameMap<String> = NameMap::new();
            m.insert(branch.to_owned(), head);
            StoredBranches::Object(m)
        },
        StoredBranches::Object(m) => {
            let mut m = m;
            m.insert(branch.to_owned(), head);
            StoredBranches::Object(m)
        },
        StoredBranches::Other(t) => StoredBranches::Other(t),
    }
}

/// `"key":value` members joined by commas, each key quoted as JSON; `None`
/// when quoting a key fails.
pub open spec fn members_text(entries: Seq<(Seq<char>, String)>) -> Option<Seq<char>>
    decreases entries.len(),
{
    if entries.len() == 0 {
        Some(Seq::empty())
    } else {
        let last = entries.last();
        match (members_text(entries.drop_last()), json_string(last.0)) {
            (Some(front), Some(key)) => Some(
                front + (if entries.len() > 1 {
                    ","@
                } else {
                    Seq::empty()
                }) + key + ":"@ + last.1@,
            ),
            _ => None,
        }
    }
}

/// The compact JSON text of stored branch heads.
pub open spec fn branches_text(b: StoredBranches) -> Option<Seq<char>> {
    match b {
        StoredBranches::Missing => Some("{}"@),
        StoredBranches::Object(m) => match members_text(m.entries_view()) {
            Some(body) => Some("{"@ + body + "}"@),
            None => None,
        },
        StoredBranches::Other(t) => Some(t@),
    }
}

/// The compact JSON text of stored branch heads, in the object's name
/// order; `None` when a branch name cannot be rendered.
pub fn render_branches(b: &StoredBranches) -> (r: Option<String>)
    ensures
        opt_text(r) == branches_text(*b),
{
    match b {
        StoredBranches::Missing => Some("{}".to_owned()),
        StoredBranches::Other(t) => Some(t.clone()),
        StoredBranches::Object(m) => {
            let ghost es = m.entries_view();
            let mut body = String::new();
            let mut i: usize = 0;
            assert(es.take(0) =~= Seq::<(Seq<char>, String)>::empty());
            while i < m.len()
                invariant
                    es == m.entries_view(),
                    *b == StoredBranches::Object(*m),
                    0 <= i <= es.len(),
                    members_text(es.take(i as int)) == Some(body@),
                decreases es.len() - i,
            {
                let key = json_text(m.name_at(i).as_str());
                assert(es.take(i + 1).drop_last() =~= es.take(i as int));
                match key {
                    Some(k) => {
                        if i > 0 {
                            body.append(",");
                        }
                        body.append(k.as_str());
                        body.append(":");
                        body.append(m.value_at(i).as_str());
                    },
                    None => {
                        proof {
                            lemma_members_none_extends(es, i as int + 1);
                        }
                        assert(branches_text(*b) is None);
                        return None;
                    },
                }
                i = i + 1;
            }
            assert(es.take(es.len() as int) =~= es);
            let mut out = "{".to_owned();
            out.append(body.as_str());
            out.append("}");
            Some(out)
        },
    }
}

proof fn lemma_members_none_extends(es: Seq<(Seq<char>, String)>, n: int)
    requires
        0 < n <= es.len(),
        json_string(es[n - 1].0) is None,
    ensures
        members_text(es) is None,
{
    let t = es.take(n);
    assert(t.last() == es[n - 1]);
    assert(members_text(t) is None);
    lemma_members_none_prefix(es, n);
}

proof fn lemma_members_none_prefix(es: Seq<(Seq<char>, String)>, n: int)
    requires
        0 < n <= es.len(),
        members_text(es.take(n)) is None,
    ensures
        members_text(es) is None,
    decreases es.len() - n,
{
    if n < es.len() {
        let t = es.take(n + 1);
        assert(t.drop_last() =~= es.take(n));
        lemma_members_none_prefix(es, n + 1);
    } else {
        assert(es.take(n) =~= es);
    }
}

/// The stored branch-heads text as JSON reads it: not JSON (`Missing`, as
/// if nothing were stored), a JSON object (its members in key order, each
/// value as its compact JSON text), or other JSON (its compact text).
pub enum BranchesText {
    Missing,
    Object(Seq<(Seq<char>, Seq<char>)>),
    Other(Seq<char>),
}

/// The stored branch-heads text as `serde_json::from_str` parses it into a
/// `Value` (see [`BranchesText`]).
pub uninterp spec fn parsed_branches(text: Seq<char>) -> BranchesText;

/// A parsed branch-heads text, as plain values.
#[derive(Debug)]
pub enum ParsedBranches {
    Missing,
    Object(Vec<(String, String)>),
    Other(String),
}

/// The text view of a parsed branch-heads text.
pub open spec fn parsed_view(p: ParsedBranches) -> BranchesText {
    match p {
        ParsedBranches::Missing => BranchesText::Missing,
        ParsedBranches::Object(es) => BranchesText::Object(
            es@.map_values(|e: (String, String)| (e.0@, e.1@)),
        ),
        ParsedBranches::Other(t) => BranchesText::Other(t@),
    }
}

/// `serde_json::from_str::<Value>` of the stored branch-heads text, taken
/// apart: a parse error is `Missing`; an object gives its members in the
/// map's (key) order, each value written back as its compact JSON text;
/// anything else gives its compact JSON text. The result is named by
/// [`parsed_branches`], a function of the text alone.
#[verifier::external_body]
fn parse_branches_text(text: &str) -> (r: ParsedBranches)
    ensures
        parsed_view(r) == parsed_branches(text@),
{
    match serde_json::from_str::<serde_json::Value>(text) {
        Ok(serde_json::Value::Object(m)) => ParsedBranches::Object(
            m.into_iter().map(|(k, v)| (k, v.to_string())).collect(),
        ),
        Ok(v) => ParsedBranches::Other(v.to_string()),
        Err(_) => ParsedBranches::Missing,
    }
}

/// The text of a head, if any.
pub open spec fn head_text(o: Option<String>) -> Option<Seq<char>> {
    match o {
        Some(s) => Some(s@),
        None => None,
    }
}

/// Whether `b` holds the parsed text `t`: nothing stored, the same object
/// members (a later member of the same key wins), or the same other text.
pub open spec fn holds_parsed(b: StoredBranches, t: BranchesText) -> bool {
    match t {
        BranchesText::Missing => b is Missing,
        BranchesText::Object(es) => b matches StoredBranches::Object(m) && names_ascend(m.entries_view())
            && forall|k: Seq<char>| #[trigger] head_text(m.get_spec(k)) == lookup(es, k),
        BranchesText::Other(x) => b matches StoredBranches::Other(u) && u@ == x,
    }
}

/// Load a parsed branch-heads text (see [`holds_parsed`]).
pub fn load_branches(p: ParsedBranches) -> (r: StoredBranches)
    ensures
        holds_parsed(r, parsed_view(p)),
{
    match p {
        ParsedBranches::Missing => StoredBranches::Missing,
        ParsedBranches::Other(t) => StoredBranches::Other(t),
        ParsedBranches::Object(es) => {
            let ghost ev = es@.map_values(|e: (String, String)| (e.0@, e.1@));
            let mut m: NameMap<String> = NameMap::new();
            let mut i: usize = 0;
            assert forall|k: Seq<char>| #[trigger] head_text(m.get_spec(k)) == lookup(ev.take(0), k) by {
                assert(ev.take(0).len() == 0);
            }
            while i < es.len()
                invariant
                    ev == es@.map_values(|e: (String, String)| (e.0@, e.1@)),
                    0 <= i <= es.len(),
                    names_ascend(m.entries_view()),
                    forall|k: Seq<char>| #[trigger] head_text(m.get_spec(k)) == lookup(ev.take(i as int), k),
                decreases es.len() - i,
            {
                let ghost before = m;
                let (k, v) = (es[i].0.clone(), es[i].1.clone());
                m.insert(k, v);
                assert(ev.take(i + 1).drop_last() =~= ev.take(i as int));
                assert(ev.take(i + 1).last() == ev[i as int]);
                assert forall|q: Seq<char>| #[trigger] head_text(m.get_spec(q)) == lookup(ev.take(i + 1), q) by {
                    if q != ev[i as int].0 {
                        assert(m.get_spec(q) == before.get_spec(q));
                    }
                }
                i = i + 1;
            }
            assert(ev.take(es.len() as int) =~= ev);
            StoredBranches::Object(m)
        },
    }
}

/// The branch an event names, as text: its own, or `main`.
pub open spec fn branch_text(branch: Option<&str>) -> Seq<char> {
    match branch {
        Some(b) => b@,
        None => "main"@,
    }
}

/// The stored branch-heads text as parsed: nothing stored reads as
/// `Missing`.
pub open spec fn stored_branches_text(stored: Option<&str>) -> BranchesText {
    match stored {
        Some(t) => parsed_branches(t@),
        None => BranchesText::Missing,
    }
}

/// The branch-heads text after an event on `branch` (`main` when none) with
/// id `event_id` is stored: the stored text (`None` when the session has
/// none yet) is parsed, the branch's head set to the id's JSON string, and
/// the result written back as compact JSON; `None` when a JSON text cannot
/// be produced.
pub fn updated_branches(stored: Option<&str>, branch: Option<&str>, event_id: &str) -> (r: Option<String>)
    ensures
        match json_string(event_id@) {
            None => r is None,
            Some(h) => exists|before: StoredBranches, after: StoredBranches, head: String|
                {
                    &&& holds_parsed(before, stored_branches_text(stored))
                    &&& head@ == h
                    &&& #[trigger] head_recorded(before, branch_text(branch), head, after)
                    &&& opt_text(r) == branches_text(after)
                },
        },
{
    let parsed = match stored {
        Some(t) => parse_branches_text(t),
        None => ParsedBranches::Missing,
    };
    let before = load_branches(parsed);
    let head = match json_text(event_id) {
        Some(h) => h,
        None => return None,
    };
    let ghost b0 = before;
    let ghost h0 = head;
    let name = branch_name(branch);
    let after = record_head(before, name.as_str(), head);
    let r = render_branches(&after);
    assert(holds_parsed(b0, stored_branches_text(stored)));
    assert(head_recorded(b0, branch_text(branch), h0, after));
    r
}

/// Member texts depend only on the names and the text of each value.
proof fn lemma_members_alike(e1: Seq<(Seq<char>, String)>, e2: Seq<(Seq<char>, String)>)
    requires
        e1.len() == e2.len(),
        forall|i: int| 0 <= i < e1.len() ==> (#[trigger] e1[i]).0 == e2[i].0,
        forall|i: int| 0 <= i < e1.len() ==> (#[trigger] e1[i]).1@ == e2[i].1@,
    ensures
        members_text(e1) == members_text(e2),
    decreases e1.len(),
{
    if e1.len() > 0 {
        let d1 = e1.drop_last();
        let d2 = e2.drop_last();
        assert forall|i: int| 0 <= i < d1.len() implies (#[trigger] d1[i]).0 == d2[i].0 && d1[i].1@
            == d2[i].1@ by {
            assert(d1[i] == e1[i] && d2[i] == e2[i]);
        }
        lemma_members_alike(d1, d2);
        assert(e1[e1.len() - 1] == e1.last());
        assert(e2[e2.len() - 1] == e2.last());
    }
}

/// The branch-heads update is one text: whichever way the parsed text is
/// held and whichever head of the same text is recorded for the branch, the
/// heads written back read the same.
pub proof fn lemma_update_determined(
    t: BranchesText,
    branch: Seq<char>,
    b1: StoredBranches,
    b2: StoredBranches,
    h1: String,
    h2: String,
    a1: StoredBranches,
    a2: StoredBranches,
)
    requires
        holds_parsed(b1, t),
        holds_parsed(b2, t),
        h1@ == h2@,
        head_recorded(b1, branch, h1, a1),
        head_recorded(b2, branch, h2, a2),
    ensures
        branches_text(a1) == branches_text(a2),
{
    let f = |s: String| s@;
    match (a1, a2) {
        (StoredBranches::Object(n1), StoredBranches::Object(n2)) => {
            let s1 = n1.entries_view();
            let s2 = n2.entries_view();
            if b1 is Missing {
                assert(s1[0].0 == branch) by {
                    assert(n1.get_spec(branch) == lookup(s1, branch));
                    assert(lookup(s1.drop_last(), branch) is None);
                    assert(s1.last() == s1[0]);
                }
                assert(s2[0].0 == branch) by {
                    assert(n2.get_spec(branch) == lookup(s2, branch));
                    assert(lookup(s2.drop_last(), branch) is None);
                    assert(s2.last() == s2[0]);
                }
                assert(s1[0].1 == h1 && s2[0].1 == h2) by {
                    assert(s1.last() == s1[0] && s2.last() == s2[0]);
                }
                lemma_members_alike(s1, s2);
            } else {
                assert forall|k: Seq<char>| #[trigger] lookup_by(s1, k, f) == lookup_by(s2, k, f) by {
                    if k != branch {
                        assert(head_text(n1.get_spec(k)) == head_text(n2.get_spec(k)));
                    }
                }
                lemma_ascending_determined(s1, s2, f);
                assert forall|i: int| 0 <= i < s1.len() implies (#[trigger] s1[i]).1@ == s2[i].1@ by {
                    assert(f(s1[i].1) == f(s2[i].1));
                }
                lemma_members_alike(s1, s2);
            }
        },
        _ => {},
    }
}

} // verus!
