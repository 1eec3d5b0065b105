//! The message and stream conversions between the agent's chat types and
//! the provider framework's: which message shape each role becomes, how a
//! completion's content list folds into one response, and which stream
//! chunk each streamed item yields. JSON values (tool arguments) are carried
//! as their text.

use vstd::prelude::*;
use crate::ingest::{lemma_filter_nil, lemma_filter_step};

verus! {

/// The role of a chat message.
#[derive(Debug, Clone, Copy, PartialEq, Eq, Structural)]
pub enum ChatRole {
    System,
    User,
    Assistant,
    Tool,
}

/// A tool call: its id, the function's name and its arguments (JSON text).
#[derive(Debug)]
pub struct ChatToolCall {
    pub id: String,
    pub name: String,
    pub arguments: String,
}

/// A chat message.
#[derive(Debug)]
pub struct ChatMessage {
    pub role: ChatRole,
    pub content: Option<String>,
    pub tool_calls: Option<Vec<ChatToolCall>>,
    pub tool_call_id: Option<String>,
}

/// One part of an assistant message on the provider side.
#[derive(Debug)]
pub enum AssistantPart {
    Text(String),
    ToolCall { id: String, name: String, arguments: String },
}

/// A message on the provider side.
#[derive(Debug)]
pub enum ProviderMessage {
    User(String),
    /// An assistant message: one or more parts.
    Assistant(Vec<AssistantPart>),
    ToolResult { tool_call_id: String, content: String },
}

/// The text of an optional string, empty when absent.
pub open spec fn text_or_empty(o: Option<String>) -> Seq<char> {
    match o {
        Some(s) => s@,
        None => Seq::empty(),
    }
}

/// Whether part `p` is the text `t`.
pub open spec fn is_text_part(p: AssistantPart, t: Seq<char>) -> bool {
    p matches AssistantPart::Text(x) && x@ == t
}

/// Whether part `p` carries tool call `c`.
pub open spec fn is_call_part(p: AssistantPart, c: ChatToolCall) -> bool {
    p matches AssistantPart::ToolCall { id, name, arguments } && id@ == c.id@ && name@ == c.name@
        && arguments@ == c.arguments@
}

/// Whether `parts` are the parts of an assistant message with content
/// `content` and tool calls `calls`: the text first (when not empty), then
/// one part per call in order; a message with neither gets one empty text.
pub open spec fn assistant_parts(parts: Seq<AssistantPart>, content: Option<String>, calls: Seq<ChatToolCall>) -> bool {
    let has_text = text_or_empty(content).len() > 0;
    let off: int = if has_text {
        1
    } else {
        0
    };
    if !has_text && calls.len() == 0 {
        parts.len() == 1 && is_text_part(parts[0], Seq::empty())
    } else {
        &&& parts.len() == off + calls.len()
        &&& has_text ==> is_text_part(parts[0], text_or_empty(content))
        &&& forall|i: int| 0 <= i < calls.len() ==> is_call_part(#[trigger] parts[off + i], calls[i])
    }
}

/// Whether `m` is what message `msg` becomes: a user message as it is; a
/// system message as a user message marked `[System] `; an assistant
/// message with tool calls as its parts (see [`assistant_parts`]), without
/// as its text; a tool message as a tool result. Absent text reads as
/// empty.
pub open spec fn converted(msg: ChatMessage, m: ProviderMessage) -> bool {
    match msg.role {
        ChatRole::User => m matches ProviderMessage::User(t) && t@ == text_or_empty(msg.content),
        ChatRole::System => m matches ProviderMessage::User(t) && t@ == "[System] "@ + text_or_empty(
            msg.content,
        ),
        ChatRole::Assistant => match msg.tool_calls {
            Some(calls) => m matches ProviderMessage::Assistant(parts) && assistant_parts(
                parts@,
                msg.content,
                calls@,
            ),
            None => m matches ProviderMessage::Assistant(parts) && parts@.len() == 1
                && is_text_part(parts@[0], text_or_empty(msg.content)),
        },
        ChatRole::Tool => m matches ProviderMessage::ToolResult { tool_call_id, content }
            && tool_call_id@ == text_or_empty(msg.tool_call_id) && content@ == text_or_empty(
            msg.content,
        ),
    }
}

fn text_of(o: &Option<String>) -> (r: String)
    ensures
        r@ == text_or_empty(*o),
{
    match o {
        Some(s) => s.clone(),
        None => String::new(),
    }
}

/// Convert one chat message (see [`converted`]).
pub fn convert_message(msg: &ChatMessage) -> (r: ProviderMessage)
    ensures
        converted(*msg, r),
{
    match msg.role {
        ChatRole::User => ProviderMessage::User(text_of(&msg.content)),
        ChatRole::System => {
            let mut t = "[System] ".to_owned();
            let c = text_of(&msg.content);
            t.append(c.as_str());
            ProviderMessage::User(t)
        },
        ChatRole::Assistant => match &msg.tool_calls {
            Some(calls) => {
                let mut parts: Vec<AssistantPart> = Vec::new();
                let text = text_of(&msg.content);
                let has_text = text.as_str().unicode_len() > 0;
                if has_text {
                    parts.push(AssistantPart::Text(text));
                }
                let off: usize = if has_text {
                    1
                } else {
                    0
                };
                let mut i: usize = 0;
                while i < calls.len()
                    invariant
                        0 <= i <= calls.len(),
                        parts@.len() == off + i,
                        has_text == (text_or_empty(msg.content).len() > 0),
                        off == (if has_text {
                            1usize
                        } else {
                            0usize
                        }),
                        has_text ==> is_text_part(parts@[0], text_or_empty(msg.content)),
                        forall|j: int| 0 <= j < i ==> is_call_part(#[trigger] parts@[off + j], calls@[j]),
                    decreases calls.len() - i,
                {
                    let c = &calls[i];
                    let ghost before = parts@;
                    parts.push(
                        AssistantPart::ToolCall {
                            id: c.id.clone(),
                            name: c.name.clone(),
                            arguments: c.arguments.clone(),
                        },
                    );
                    assert forall|j: int| 0 <= j < i + 1 implies is_call_part(
                        #[trigger] parts@[off + j],
                        calls@[j],
                    ) by {
                        if j < i {
                            assert(parts@[off + j] == before[off + j]);
                        }
                    }
                    i = i + 1;
                }
                if parts.len() == 0 {
                    parts.push(AssistantPart::Text(String::new()));
                }
                ProviderMessage::Assistant(parts)
            },
            None => {
                let mut parts: Vec<AssistantPart> = Vec::new();
                parts.push(AssistantPart::Text(text_of(&msg.content)));
                ProviderMessage::Assistant(parts)
            },
        },
        ChatRole::Tool => ProviderMessage::ToolResult {
            tool_call_id: text_of(&msg.tool_call_id),
            content: text_of(&msg.content),
        },
    }
}

/// Convert a conversation, message by message.
pub fn to_rig_messages(messages: &Vec<ChatMessage>) -> (r: Vec<ProviderMessage>)
    ensures
        r.len() == messages.len(),
        forall|i: int| 0 <= i < r.len() ==> converted(messages@[i], #[trigger] r@[i]),
{
    let mut out: Vec<ProviderMessage> = Vec::new();
    let mut i: usize = 0;
    while i < messages.len()
        invariant
            0 <= i <= messages.len(),
            out.len() == i,
            forall|j: int| 0 <= j < i ==> converted(messages@[j], #[trigger] out@[j]),
        decreases messages.len() - i,
    {
        out.push(convert_message(&messages[i]));
        i = i + 1;
    }
    out
}

/// Token counts of a completion.
#[derive(Debug, Clone, Copy, PartialEq, Eq, Structural)]
pub struct TokenUsage {
    pub input_tokens: u64,
    pub output_tokens: u64,
    pub total_tokens: u64,
}

/// Token counts as the agent keeps them.
#[derive(Debug, Clone, Copy, PartialEq, Eq, Structural)]
pub struct Usage {
    pub input_tokens: usize,
    pub output_tokens: usize,
    pub total_tokens: usize,
}

/// The agent's counts of a completion's usage, each cast to `usize`.
pub open spec fn usage_of(u: TokenUsage) -> Usage {
    Usage {
        input_tokens: u.input_tokens as usize,
        output_tokens: u.output_tokens as usize,
        total_tokens: u.total_tokens as usize,
    }
}

/// The agent's counts of a completion's usage (see [`usage_of`]).
pub fn convert_usage(u: TokenUsage) -> (r: Usage)
    ensures
        r == usage_of(u),
{
    Usage {
        input_tokens: u.input_tokens as usize,
        output_tokens: u.output_tokens as usize,
        total_tokens: u.total_tokens as usize,
    }
}

/// One item of a completion's content.
#[derive(Debug)]
pub enum CompletionPart {
    Text(String),
    ToolCall { id: String, name: String, arguments: String },
    /// Reasoning, by its display text.
    Reasoning(String),
    Image,
}

/// A complete chat response.
#[derive(Debug)]
pub struct ChatResponse {
    pub content: Option<String>,
    pub tool_calls: Vec<ChatToolCall>,
    pub reasoning_content: Option<String>,
    pub usage: Option<Usage>,
}

/// The last text of `ps`, if any.
pub open spec fn last_text(ps: Seq<CompletionPart>) -> Option<Seq<char>>
    decreases ps.len(),
{
    if ps.len() == 0 {
        None
    } else {
        match ps.last() {
            CompletionPart::Text(t) => Some(t@),
            _ => last_text(ps.drop_last()),
        }
    }
}

/// The last reasoning of `ps`, if any.
pub open spec fn last_reasoning(ps: Seq<CompletionPart>) -> Option<Seq<char>>
    decreases ps.len(),
{
    if ps.len() == 0 {
        None
    } else {
        match ps.last() {
            CompletionPart::Reasoning(t) => Some(t@),
            _ => last_reasoning(ps.drop_last()),
        }
    }
}

/// The tool calls of `ps`, in order, as (id, name, arguments).
pub open spec fn calls_of(ps: Seq<CompletionPart>) -> Seq<(Seq<char>, Seq<char>, Seq<char>)>
    decreases ps.len(),
{
    if ps.len() == 0 {
        Seq::empty()
    } else {
        calls_of(ps.drop_last()) + match ps.last() {
            CompletionPart::ToolCall { id, name, arguments } => seq![(id@, name@, arguments@)],
            _ => Seq::empty(),
        }
    }
}

/// The calls of a response as (id, name, arguments).
pub open spec fn response_calls(cs: Seq<ChatToolCall>) -> Seq<(Seq<char>, Seq<char>, Seq<char>)> {
    cs.map_values(|c: ChatToolCall| (c.id@, c.name@, c.arguments@))
}

fn opt_text(o: &Option<String>) -> (r: Option<String>)
    ensures
        match *o {
            Some(s) => r matches Some(x) && x@ == s@,
            None => r is None,
        },
{
    match o {
        Some(s) => Some(s.clone()),
        None => None,
    }
}

/// Fold a completion's content into one response: the last text is the
/// content, the last reasoning the reasoning, every tool call is kept in
/// order, and images are dropped.
pub fn build_chat_response(contents: &Vec<CompletionPart>, usage: Option<TokenUsage>) -> (r: ChatResponse)
    ensures
        match r.content {
            Some(c) => last_text(contents@) == Some(c@),
            None => last_text(contents@) is None,
        },
        match r.reasoning_content {
            Some(c) => last_reasoning(contents@) == Some(c@),
            None => last_reasoning(contents@) is None,
        },
        response_calls(r.tool_calls@) == calls_of(contents@),
        r.usage == match usage {
            Some(u) => Some(usage_of(u)),
            None => None::<Usage>,
        },
{
    let mut content: Option<String> = None;
    let mut reasoning: Option<String> = None;
    let mut calls: Vec<ChatToolCall> = Vec::new();
    let mut i: usize = 0;
    assert(contents@.take(0) =~= Seq::<CompletionPart>::empty());
    while i < contents.len()
        invariant
            0 <= i <= contents.len(),
            match content {
                Some(c) => last_text(contents@.take(i as int)) == Some(c@),
                None => last_text(contents@.take(i as int)) is None,
            },
            match reasoning {
                Some(c) => last_reasoning(contents@.take(i as int)) == Some(c@),
                None => last_reasoning(contents@.take(i as int)) is None,
            },
            response_calls(calls@) == calls_of(contents@.take(i as int)),
        decreases contents.len() - i,
    {
        let ghost t = contents@.take(i + 1);
        assert(t.drop_last() =~= contents@.take(i as int));
        assert(t.last() == contents@[i as int]);
        let ghost before = calls@;
        match &contents[i] {
            CompletionPart::Text(s) => {
                content = Some(s.clone());
            },
            CompletionPart::ToolCall { id, name, arguments } => {
                calls.push(ChatToolCall { id: id.clone(), name: name.clone(), arguments: arguments.clone() });
                assert(response_calls(calls@) =~= response_calls(before).push(
                    (id@, name@, arguments@),
                ));
            },
            CompletionPart::Reasoning(s) => {
                reasoning = Some(s.clone());
            },
            CompletionPart::Image => {},
        }
        assert(calls_of(t) =~= response_calls(calls@));
        i = i + 1;
    }
    assert(contents@.take(contents.len() as int) =~= contents@);
    ChatResponse {
        content,
        tool_calls: calls,
        reasoning_content: reasoning,
        usage: match usage {
            Some(u) => Some(convert_usage(u)),
            None => None,
        },
    }
}

/// Why a stream chunk ends its message.
#[derive(Debug, Clone, Copy, PartialEq, Eq, Structural)]
pub enum FinishReason {
    Stop,
    ToolCalls,
}

/// An incremental piece of a tool call.
#[derive(Debug)]
pub struct ToolCallDelta {
    pub index: usize,
    pub id: Option<String>,
    pub function_name: Option<String>,
    pub function_arguments: Option<String>,
}

/// The content a stream chunk adds.
#[derive(Debug)]
pub struct ChatStreamDelta {
    pub content: Option<String>,
    pub reasoning_content: Option<String>,
    pub tool_calls: Vec<ToolCallDelta>,
}

/// One chunk of a chat stream.
#[derive(Debug)]
pub struct ChatStreamChunk {
    pub delta: ChatStreamDelta,
    pub finish_reason: Option<FinishReason>,
    pub usage: Option<Usage>,
}

/// What a tool-call delta carries: the function's name or a piece of its
/// arguments.
#[derive(Debug)]
pub enum ToolDeltaContent {
    Name(String),
    Delta(String),
}

/// One streamed item of an assistant's reply. `arguments` of a whole tool
/// call is its JSON text (empty when it could not be rendered).
#[derive(Debug)]
pub enum StreamedItem {
    Text(String),
    /// Reasoning, by its display text.
    Reasoning(String),
    ReasoningDelta(String),
    ToolCall { id: String, name: String, arguments: String },
    ToolCallDelta { id: String, content: ToolDeltaContent },
    /// The end of the reply, with its usage when reported.
    Final(Option<TokenUsage>),
}

/// One item of a multi-turn stream.
#[derive(Debug)]
pub enum TurnItem {
    Assistant(StreamedItem),
    /// A tool result fed back by the framework; not forwarded.
    User,
    /// The end of the whole exchange, with its usage.
    FinalResponse(TokenUsage),
    /// An item kind this adapter does not know; not forwarded.
    Other,
}

/// Whether `o` holds the text `t`.
pub open spec fn text_is(o: Option<String>, t: Seq<char>) -> bool {
    o matches Some(x) && x@ == t
}

/// Whether `d` is the one delta of a tool call `id` carrying `name` and
/// `arguments`.
pub open spec fn one_call_delta(
    ds: Seq<ToolCallDelta>,
    id: Seq<char>,
    name: Option<Seq<char>>,
    arguments: Option<Seq<char>>,
) -> bool {
    &&& ds.len() == 1
    &&& ds[0].index == 0
    &&& ds[0].id matches Some(x) && x@ == id
    &&& match name {
        Some(n) => ds[0].function_name matches Some(x) && x@ == n,
        None => ds[0].function_name is None,
    }
    &&& match arguments {
        Some(a) => ds[0].function_arguments matches Some(x) && x@ == a,
        None => ds[0].function_arguments is None,
    }
}

/// Whether `c` is the chunk streamed item `it` becomes: text and
/// reasoning become content and reasoning deltas; a whole tool call becomes
/// one call delta that finishes the message for tool calls; a call delta
/// becomes a name or an arguments delta; the end finishes the message with
/// its usage.
pub open spec fn chunk_of(it: StreamedItem, c: ChatStreamChunk) -> bool {
    match it {
        StreamedItem::Text(t) => c.delta.content matches Some(x) && x@ == t@
            && c.delta.reasoning_content is None && c.delta.tool_calls@.len() == 0
            && c.finish_reason is None && c.usage is None,
        StreamedItem::Reasoning(t) => c.delta.content is None && text_is(c.delta.reasoning_content, t@)
            && c.delta.tool_calls@.len() == 0 && c.finish_reason is None && c.usage is None,
        StreamedItem::ReasoningDelta(t) => c.delta.content is None && text_is(
            c.delta.reasoning_content,
            t@,
        ) && c.delta.tool_calls@.len() == 0 && c.finish_reason is None && c.usage is None,
        StreamedItem::ToolCall { id, name, arguments } => c.delta.content is None
            && c.delta.reasoning_content is None && one_call_delta(
            c.delta.tool_calls@,
            id@,
            Some(name@),
            Some(arguments@),
        ) && c.finish_reason == Some(FinishReason::ToolCalls) && c.usage is None,
        StreamedItem::ToolCallDelta { id, content } => c.delta.content is None
            && c.delta.reasoning_content is None && one_call_delta(
            c.delta.tool_calls@,
            id@,
            match content {
                ToolDeltaContent::Name(n) => Some(n@),
                ToolDeltaContent::Delta(_) => None,
            },
            match content {
                ToolDeltaContent::Name(_) => None,
                ToolDeltaContent::Delta(a) => Some(a@),
            },
        ) && c.finish_reason is None && c.usage is None,
        StreamedItem::Final(u) => c.delta.content is None && c.delta.reasoning_content is None
            && c.delta.tool_calls@.len() == 0 && c.finish_reason == Some(FinishReason::Stop)
            && c.usage == match u {
            Some(u) => Some(usage_of(u)),
            None => None::<Usage>,
        },
    }
}

fn empty_delta() -> (d: ChatStreamDelta)
    ensures
        d.content is None,
        d.reasoning_content is None,
        d.tool_calls@.len() == 0,
{
    ChatStreamDelta { content: None, reasoning_content: None, tool_calls: Vec::new() }
}

fn call_delta(id: &String, name: Option<&String>, arguments: Option<&String>) -> (ds: Vec<ToolCallDelta>)
    ensures
        one_call_delta(
            ds@,
            id@,
            match name {
                Some(n) => Some(n@),
                None => None,
            },
            match arguments {
                Some(a) => Some(a@),
                None => None,
            },
        ),
{
    let mut ds: Vec<ToolCallDelta> = Vec::new();
    ds.push(
        ToolCallDelta {
            index: 0,
            id: Some(id.clone()),
            function_name: match name {
                Some(n) => Some(n.clone()),
                None => None,
            },
            function_arguments: match arguments {
                Some(a) => Some(a.clone()),
                None => None,
            },
        },
    );
    ds
}

/// The chunk a streamed item becomes (see [`chunk_of`]).
pub fn stream_chunk(it: &StreamedItem) -> (c: ChatStreamChunk)
    ensures
        chunk_of(*it, c),
{
    match it {
        StreamedItem::Text(t) => {
            let mut d = empty_delta();
            d.content = Some(t.clone());
            ChatStreamChunk { delta: d, finish_reason: None, usage: None }
        },
        StreamedItem::Reasoning(t) => {
            let mut d = empty_delta();
            d.reasoning_content = Some(t.clone());
            ChatStreamChunk { delta: d, finish_reason: None, usage: None }
        },
        StreamedItem::ReasoningDelta(t) => {
            let mut d = empty_delta();
            d.reasoning_content = Some(t.clone());
            ChatStreamChunk { delta: d, finish_reason: None, usage: None }
        },
        StreamedItem::ToolCall { id, name, arguments } => {
            let mut d = empty_delta();
            d.tool_calls = call_delta(id, Some(name), Some(arguments));
            ChatStreamChunk { delta: d, finish_reason: Some(FinishReason::ToolCalls), usage: None }
        },
        StreamedItem::ToolCallDelta { id, content } => {
            let mut d = empty_delta();
            d.tool_calls = match content {
                ToolDeltaContent::Name(n) => call_delta(id, Some(n), None),
                ToolDeltaContent::Delta(a) => call_delta(id, None, Some(a)),
            };
            ChatStreamChunk { delta: d, finish_reason: None, usage: None }
        },
        StreamedItem::Final(u) => ChatStreamChunk {
            delta: empty_delta(),
            finish_reason: Some(FinishReason::Stop),
            usage: match u {
                Some(u) => Some(convert_usage(*u)),
                None => None,
            },
        },
    }
}

/// The chunk a multi-turn item becomes, if it is forwarded: an assistant
/// item as [`stream_chunk`]; the final response as a stop with its usage;
/// tool results and unknown items are not forwarded.
pub fn turn_chunk(it: &TurnItem) -> (c: Option<ChatStreamChunk>)
    ensures
        match *it {
            TurnItem::Assistant(s) => c matches Some(x) && chunk_of(s, x),
            TurnItem::FinalResponse(u) => c matches Some(x) && chunk_of(StreamedItem::Final(Some(u)), x),
            _ => c is None,
        },
{
    match it {
        TurnItem::Assistant(s) => Some(stream_chunk(s)),
        TurnItem::FinalResponse(u) => Some(
            ChatStreamChunk {
                delta: empty_delta(),
                finish_reason: Some(FinishReason::Stop),
                usage: Some(convert_usage(*u)),
            },
        ),
        _ => None,
    }
}

/// The error a failed stream item ends the stream with.
pub fn stream_error_message(e: &str) -> (r: String)
    ensures
        r@ == "Stream error: "@ + e@,
{
    let mut s = "Stream error: ".to_owned();
    s.append(e);
    s
}

/// The index of the first failed item of `items` from `i` on (the length
/// when none fails).
pub open spec fn stop_from<T>(items: Seq<Result<T, String>>, i: int) -> int
    decreases items.len() - i,
{
    if i < 0 || i >= items.len() {
        items.len() as int
    } else if items[i] is Err {
        i
    } else {
        stop_from(items, i + 1)
    }
}

/// Whether `r` ends as a stream does at item `k` of `items`: nothing when
/// no item failed (`k` is the length), else one error `Stream error: {e}`
/// for the failure `e` of item `k`, after the `n` chunks before it.
pub open spec fn ends_at<T>(items: Seq<Result<T, String>>, k: int, r: Seq<Result<ChatStreamChunk, String>>, n: int) -> bool {
    if k < items.len() {
        &&& r.len() == n + 1
        &&& items[k] matches Err(e) && (r[n] matches Err(m) && m@ == "Stream error: "@ + e@)
    } else {
        r.len() == n
    }
}

/// Convert a completion stream, item by item in order (see [`chunk_of`]):
/// the items before the first failure become their chunks; the first
/// failure becomes one error `Stream error: {e}` and ends the stream, and
/// nothing after it is read.
pub fn convert_stream(items: &Vec<Result<StreamedItem, String>>) -> (r: Vec<Result<ChatStreamChunk, String>>)
    ensures
        ends_at(items@, stop_from(items@, 0), r@, stop_from(items@, 0)),
        forall|i: int|
            0 <= i < stop_from(items@, 0) ==> (items@[i] matches Ok(it) && (#[trigger] r@[i] matches Ok(c)
                && chunk_of(it, c))),
{
    let mut out: Vec<Result<ChatStreamChunk, String>> = Vec::new();
    let mut i: usize = 0;
    while i < items.len()
        invariant
            0 <= i <= items.len(),
            stop_from(items@, 0) == stop_from(items@, i as int),
            out.len() == i,
            forall|j: int|
                0 <= j < i ==> (items@[j] matches Ok(it) && (#[trigger] out@[j] matches Ok(c) && chunk_of(
                    it,
                    c,
                ))),
        decreases items.len() - i,
    {
        match &items[i] {
            Ok(it) => {
                out.push(Ok(stream_chunk(it)));
            },
            Err(e) => {
                out.push(Err(stream_error_message(e.as_str())));
                return out;
            },
        }
        i = i + 1;
    }
    out
}

/// Whether a multi-turn item is forwarded: assistant items and the final
/// response are; tool results and unknown items are not.
pub open spec fn forwards(it: TurnItem) -> bool {
    it is Assistant || it is FinalResponse
}

/// Whether `c` is the chunk forwarded item `it` becomes (see
/// [`turn_chunk`]).
pub open spec fn turn_chunk_of(it: TurnItem, c: ChatStreamChunk) -> bool {
    match it {
        TurnItem::Assistant(s) => chunk_of(s, c),
        TurnItem::FinalResponse(u) => chunk_of(StreamedItem::Final(Some(u)), c),
        _ => false,
    }
}

/// The forwarded items among the first `n` of `items`, in order (failed
/// items are not among them).
pub open spec fn forwarded(items: Seq<Result<TurnItem, String>>, n: int) -> Seq<TurnItem>
    decreases n,
{
    if n <= 0 {
        Seq::empty()
    } else {
        let p = forwarded(items, n - 1);
        match items[n - 1] {
            Ok(it) => if forwards(it) {
                p.push(it)
            } else {
                p
            },
            Err(_) => p,
        }
    }
}

/// Convert a multi-turn stream in order: of the items before the first
/// failure, the forwarded ones become their chunks (see [`turn_chunk`]) and
/// the others are skipped; the first failure becomes one error `Stream
/// error: {e}` and ends the stream.
pub fn convert_turn_stream(items: &Vec<Result<TurnItem, String>>) -> (r: Vec<Result<ChatStreamChunk, String>>)
    ensures
        ends_at(items@, stop_from(items@, 0), r@, forwarded(items@, stop_from(items@, 0)).len() as int),
        forall|i: int|
            0 <= i < forwarded(items@, stop_from(items@, 0)).len() ==> (#[trigger] r@[i] matches Ok(c)
                && turn_chunk_of(forwarded(items@, stop_from(items@, 0))[i], c)),
{
    let mut out: Vec<Result<ChatStreamChunk, String>> = Vec::new();
    let mut i: usize = 0;
    while i < items.len()
        invariant
            0 <= i <= items.len(),
            stop_from(items@, 0) == stop_from(items@, i as int),
            out.len() == forwarded(items@, i as int).len(),
            forall|j: int|
                0 <= j < out.len() ==> (#[trigger] out@[j] matches Ok(c) && turn_chunk_of(
                    forwarded(items@, i as int)[j],
                    c,
                )),
        decreases items.len() - i,
    {
        let ghost before = out@;
        match &items[i] {
            Ok(it) => {
                match turn_chunk(it) {
                    Some(c) => {
                        out.push(Ok(c));
                        assert(forwarded(items@, i + 1) == forwarded(items@, i as int).push(*it));
                        assert forall|j: int| 0 <= j < out.len() implies (#[trigger] out@[j] matches Ok(c)
                            && turn_chunk_of(forwarded(items@, i + 1)[j], c)) by {
                            if j < before.len() {
                                assert(out@[j] == before[j]);
                            }
                        }
                    },
                    None => {
                        assert(forwarded(items@, i + 1) == forwarded(items@, i as int));
                    },
                }
            },
            Err(e) => {
                out.push(Err(stream_error_message(e.as_str())));
                assert(out@[before.len() as int] matches Err(_));
                return out;
            },
        }
        i = i + 1;
    }
    out
}

/// A tool's definition as sent with a request: name, description and the
/// JSON text of its parameter schema.
#[derive(Debug)]
pub struct ToolDef {
    pub name: String,
    pub description: String,
    pub parameters: String,
}

/// The function a tool definition describes: its name, description and the
/// JSON text of its parameter schema.
#[derive(Debug)]
pub struct FunctionDefinition {
    pub name: String,
    pub description: String,
    pub parameters: String,
}

/// A tool definition on the agent's side: a function definition.
#[derive(Debug)]
pub struct ToolDefinition {
    pub function: FunctionDefinition,
}

impl ToolDefinition {
    /// The definition of a function tool.
    pub fn function(name: String, description: String, parameters: String) -> (r: Self)
        ensures
            r.function.name == name,
            r.function.description == description,
            r.function.parameters == parameters,
    {
        ToolDefinition { function: FunctionDefinition { name, description, parameters } }
    }
}

/// Whether `r` is the provider's form of the agent's tool definition `d`:
/// the same name, description and parameter schema.
pub open spec fn same_tool(d: ToolDefinition, r: ToolDef) -> bool {
    &&& r.name@ == d.function.name@
    &&& r.description@ == d.function.description@
    &&& r.parameters@ == d.function.parameters@
}

/// The provider's form of a tool definition.
pub fn to_rig_tool_def(def: &ToolDefinition) -> (r: ToolDef)
    ensures
        same_tool(*def, r),
{
    ToolDef {
        name: def.function.name.clone(),
        description: def.function.description.clone(),
        parameters: def.function.parameters.clone(),
    }
}

/// The agent's form of a provider tool definition.
pub fn from_rig_tool_def(def: ToolDef) -> (r: ToolDefinition)
    ensures
        same_tool(r, def),
{
    ToolDefinition::function(def.name, def.description, def.parameters)
}

/// A chat request. `temperature_bits` holds `f32::to_bits` of the
/// temperature.
#[derive(Debug)]
pub struct ChatRequest {
    pub model: String,
    pub messages: Vec<ChatMessage>,
    pub tools: Option<Vec<ToolDefinition>>,
    pub temperature_bits: Option<u32>,
    pub max_tokens: Option<u32>,
}

/// The index of the last message before `n` with role `role`.
pub open spec fn last_with_role(ms: Seq<ChatMessage>, role: ChatRole, n: int) -> Option<int>
    decreases n,
{
    if n <= 0 {
        None
    } else if ms[n - 1].role == role {
        Some(n - 1)
    } else {
        last_with_role(ms, role, n - 1)
    }
}

/// The index of the first message from `i` on with role `role`.
pub open spec fn first_with_role(ms: Seq<ChatMessage>, role: ChatRole, i: int) -> Option<int>
    decreases ms.len() - i,
{
    if i < 0 || i >= ms.len() {
        None
    } else if ms[i].role == role {
        Some(i)
    } else {
        first_with_role(ms, role, i + 1)
    }
}

/// The prompt of a request: the content of the last user message (empty
/// when it has none, or when there is no user message).
pub open spec fn prompt_text(ms: Seq<ChatMessage>) -> Seq<char> {
    match last_with_role(ms, ChatRole::User, ms.len() as int) {
        Some(i) => text_or_empty(ms[i].content),
        None => Seq::empty(),
    }
}

proof fn lemma_last_with_role_at(ms: Seq<ChatMessage>, role: ChatRole, n: int, i: int)
    requires
        0 <= i < n <= ms.len(),
        ms[i].role == role,
        forall|j: int| i < j < n ==> (#[trigger] ms[j]).role != role,
    ensures
        last_with_role(ms, role, n) == Some(i),
    decreases n,
{
    if n - 1 > i {
        lemma_last_with_role_at(ms, role, n - 1, i);
    }
}

proof fn lemma_last_with_role_none(ms: Seq<ChatMessage>, role: ChatRole, n: int)
    requires
        n <= ms.len(),
        forall|j: int| 0 <= j < n ==> (#[trigger] ms[j]).role != role,
    ensures
        last_with_role(ms, role, n) is None,
    decreases n,
{
    if n > 0 {
        lemma_last_with_role_none(ms, role, n - 1);
    }
}

/// The prompt is the content of the last user message: whatever assistant,
/// tool or system messages follow it leave the prompt as it is, and a
/// request with no user message has an empty prompt.
pub proof fn lemma_prompt_is_last_user(ms: Seq<ChatMessage>, i: int)
    ensures
        0 <= i < ms.len() && ms[i].role == ChatRole::User && (forall|j: int|
            i < j < ms.len() ==> (#[trigger] ms[j]).role != ChatRole::User) ==> prompt_text(ms)
            == text_or_empty(ms[i].content),
        (forall|j: int| 0 <= j < ms.len() ==> (#[trigger] ms[j]).role != ChatRole::User) ==> prompt_text(ms)
            == Seq::<char>::empty(),
{
    if 0 <= i < ms.len() && ms[i].role == ChatRole::User && (forall|j: int|
        i < j < ms.len() ==> (#[trigger] ms[j]).role != ChatRole::User) {
        lemma_last_with_role_at(ms, ChatRole::User, ms.len() as int, i);
    }
    if forall|j: int| 0 <= j < ms.len() ==> (#[trigger] ms[j]).role != ChatRole::User {
        lemma_last_with_role_none(ms, ChatRole::User, ms.len() as int);
    }
}

/// Appending a message that is not from the user leaves the prompt as it
/// is; appending a user message makes its content the prompt.
pub proof fn lemma_prompt_after_push(ms: Seq<ChatMessage>, m: ChatMessage)
    ensures
        m.role != ChatRole::User ==> prompt_text(ms.push(m)) == prompt_text(ms),
        m.role == ChatRole::User ==> prompt_text(ms.push(m)) == text_or_empty(m.content),
{
    let t = ms.push(m);
    assert(t[ms.len() as int] == m);
    if m.role != ChatRole::User {
        lemma_last_with_role_push(ms, m, ChatRole::User, ms.len() as int);
        let l = last_with_role(ms, ChatRole::User, ms.len() as int);
        if l is Some {
            lemma_last_with_role_range(ms, ChatRole::User, ms.len() as int);
            assert(t[l.unwrap()] == ms[l.unwrap()]);
        }
    } else {
        lemma_prompt_is_last_user(t, ms.len() as int);
    }
}

proof fn lemma_last_with_role_range(ms: Seq<ChatMessage>, role: ChatRole, n: int)
    ensures
        last_with_role(ms, role, n) matches Some(i) ==> 0 <= i < n,
    decreases n,
{
    if n > 0 {
        lemma_last_with_role_range(ms, role, n - 1);
    }
}

proof fn lemma_last_with_role_push(ms: Seq<ChatMessage>, m: ChatMessage, role: ChatRole, n: int)
    requires
        n <= ms.len(),
    ensures
        last_with_role(ms.push(m), role, n) == last_with_role(ms, role, n),
    decreases n,
{
    if n > 0 {
        lemma_last_with_role_push(ms, m, role, n - 1);
        assert(ms.push(m)[n - 1] == ms[n - 1]);
    }
}

/// The preamble of a request: the content of the first system message, if
/// it has one.
pub open spec fn preamble_text(ms: Seq<ChatMessage>) -> Option<Seq<char>> {
    match first_with_role(ms, ChatRole::System, 0) {
        Some(i) => match ms[i].content {
            Some(c) => Some(c@),
            None => None,
        },
        None => None,
    }
}

proof fn lemma_first_with_role_at(ms: Seq<ChatMessage>, role: ChatRole, i: int, k: int)
    requires
        0 <= i <= k < ms.len(),
        ms[k].role == role,
        forall|j: int| i <= j < k ==> (#[trigger] ms[j]).role != role,
    ensures
        first_with_role(ms, role, i) == Some(k),
    decreases k - i,
{
    if i < k {
        lemma_first_with_role_at(ms, role, i + 1, k);
    }
}

proof fn lemma_first_with_role_none(ms: Seq<ChatMessage>, role: ChatRole, i: int)
    requires
        0 <= i,
        forall|j: int| i <= j < ms.len() ==> (#[trigger] ms[j]).role != role,
    ensures
        first_with_role(ms, role, i) is None,
    decreases ms.len() - i,
{
    if i < ms.len() {
        lemma_first_with_role_none(ms, role, i + 1);
    }
}

/// The preamble is the content of the first system message: later system
/// messages do not replace it, and a request without a system message has
/// no preamble.
pub proof fn lemma_preamble_is_first_system(ms: Seq<ChatMessage>, k: int)
    ensures
        0 <= k < ms.len() && ms[k].role == ChatRole::System && (forall|j: int|
            0 <= j < k ==> (#[trigger] ms[j]).role != ChatRole::System) ==> preamble_text(ms) == match ms[k].content {
            Some(c) => Some(c@),
            None => None::<Seq<char>>,
        },
        (forall|j: int| 0 <= j < ms.len() ==> (#[trigger] ms[j]).role != ChatRole::System) ==> preamble_text(ms)
            is None,
{
    if 0 <= k < ms.len() && ms[k].role == ChatRole::System && (forall|j: int|
        0 <= j < k ==> (#[trigger] ms[j]).role != ChatRole::System) {
        lemma_first_with_role_at(ms, ChatRole::System, 0, k);
    }
    if forall|j: int| 0 <= j < ms.len() ==> (#[trigger] ms[j]).role != ChatRole::System {
        lemma_first_with_role_none(ms, ChatRole::System, 0);
    }
}

/// The messages of a request that are not system messages, in order.
pub open spec fn non_system(ms: Seq<ChatMessage>) -> Seq<ChatMessage> {
    ms.filter(|m: ChatMessage| m.role != ChatRole::System)
}

/// How many messages of the history go with the request: the non-system
/// messages, at most one fewer than the request has messages in all.
pub open spec fn history_len(ms: Seq<ChatMessage>) -> int {
    let limit: int = if ms.len() == 0 {
        0
    } else {
        ms.len() - 1
    };
    if non_system(ms).len() < limit {
        non_system(ms).len() as int
    } else {
        limit
    }
}

/// A completion request as built for the provider.
#[derive(Debug)]
pub struct CompletionPlan {
    pub prompt: String,
    pub preamble: Option<String>,
    pub history: Vec<ProviderMessage>,
    /// The tools sent with the request (none when empty).
    pub tools: Vec<ToolDef>,
    pub temperature_bits: Option<u32>,
    pub max_tokens: Option<u32>,
}

/// The prompt of a request (see [`prompt_text`]).
pub fn prompt_of(messages: &Vec<ChatMessage>) -> (r: String)
    ensures
        r@ == prompt_text(messages@),
{
    let mut n = messages.len();
    while n > 0
        invariant
            0 <= n <= messages.len(),
            last_with_role(messages@, ChatRole::User, messages.len() as int) == last_with_role(
                messages@,
                ChatRole::User,
                n as int,
            ),
        decreases n,
    {
        if messages[n - 1].role == ChatRole::User {
            return text_of(&messages[n - 1].content);
        }
        n = n - 1;
    }
    String::new()
}

/// The preamble of a request (see [`preamble_text`]).
pub fn preamble_of(messages: &Vec<ChatMessage>) -> (r: Option<String>)
    ensures
        match preamble_text(messages@) {
            Some(p) => r matches Some(x) && x@ == p,
            None => r is None,
        },
{
    let mut i: usize = 0;
    while i < messages.len()
        invariant
            0 <= i <= messages.len(),
            first_with_role(messages@, ChatRole::System, 0) == first_with_role(
                messages@,
                ChatRole::System,
                i as int,
            ),
        decreases messages.len() - i,
    {
        if messages[i].role == ChatRole::System {
            return opt_text(&messages[i].content);
        }
        i = i + 1;
    }
    None
}

/// Build the completion request: the prompt and preamble (see
/// [`prompt_text`], [`preamble_text`]), the history (the first
/// [`history_len`] non-system messages, converted), the tools when there
/// are any, and the sampling settings.
pub fn completion_plan(req: &ChatRequest) -> (r: CompletionPlan)
    ensures
        r.prompt@ == prompt_text(req.messages@),
        match preamble_text(req.messages@) {
            Some(p) => r.preamble matches Some(x) && x@ == p,
            None => r.preamble is None,
        },
        r.history.len() == history_len(req.messages@),
        forall|i: int|
            0 <= i < r.history.len() ==> converted(non_system(req.messages@)[i], #[trigger] r.history@[i]),
        r.tools.len() == match req.tools {
            Some(ts) => ts.len(),
            None => 0,
        },
        forall|i: int|
            0 <= i < r.tools.len() ==> same_tool(#[trigger] req.tools.unwrap()@[i], r.tools@[i]),
        r.temperature_bits == req.temperature_bits,
        r.max_tokens == req.max_tokens,
{
    let ms = &req.messages;
    let ghost f = |m: ChatMessage| m.role != ChatRole::System;
    let limit: usize = if ms.len() == 0 {
        0
    } else {
        ms.len() - 1
    };
    let mut history: Vec<ProviderMessage> = Vec::new();
    let mut i: usize = 0;
    proof {
        lemma_filter_nil(ms@.take(0), f);
    }
    while i < ms.len()
        invariant
            f == (|m: ChatMessage| m.role != ChatRole::System),
            0 <= i <= ms.len(),
            limit == (if ms.len() == 0 {
                0usize
            } else {
                (ms.len() - 1) as usize
            }),
            history.len() == (if ms@.take(i as int).filter(f).len() < limit {
                ms@.take(i as int).filter(f).len() as int
            } else {
                limit as int
            }),
            forall|j: int|
                0 <= j < history.len() ==> converted(ms@.take(i as int).filter(f)[j], #[trigger] history@[j]),
        decreases ms.len() - i,
    {
        let ghost ns = ms@.take(i as int).filter(f);
        proof {
            lemma_filter_step(ms@.take(i as int), f, ms@[i as int]);
            assert(ms@.take(i + 1) =~= ms@.take(i as int).push(ms@[i as int]));
        }
        let ghost ns2 = ms@.take(i + 1).filter(f);
        if ms[i].role != ChatRole::System && history.len() < limit {
            let ghost before = history@;
            history.push(convert_message(&ms[i]));
            assert forall|j: int| 0 <= j < history.len() implies converted(ns2[j], #[trigger] history@[j]) by {
                if j < before.len() {
                    assert(history@[j] == before[j]);
                    assert(ns2[j] == ns[j]);
                } else {
                    assert(ns2[j] == ms@[i as int]);
                }
            }
        } else {
            assert forall|j: int| 0 <= j < history.len() implies converted(ns2[j], #[trigger] history@[j]) by {
                assert(ns2[j] == ns[j]);
            }
        }
        i = i + 1;
    }
    assert(ms@.take(ms.len() as int) =~= ms@);
    let mut tools: Vec<ToolDef> = Vec::new();
    if let Some(ts) = &req.tools {
        let mut k: usize = 0;
        while k < ts.len()
            invariant
                0 <= k <= ts.len(),
                req.tools == Some(*ts),
                tools.len() == k,
                forall|j: int| 0 <= j < k ==> same_tool(#[trigger] ts@[j], tools@[j]),
            decreases ts.len() - k,
        {
            tools.push(to_rig_tool_def(&ts[k]));
            k = k + 1;
        }
    }
    CompletionPlan {
        prompt: prompt_of(ms),
        preamble: preamble_of(ms),
        history,
        tools,
        temperature_bits: req.temperature_bits,
        max_tokens: req.max_tokens,
    }
}

} // verus!