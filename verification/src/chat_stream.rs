//! The decisions of a Chat Completions stream: how each server-sent chunk turns into
//! response events, how tool-call deltas merge into function calls, and what ends the
//! stream. Reading the SSE transport and parsing each chunk's JSON is left to the caller,
//! which hands over the fields described by `ChatChunk`.
use vstd::prelude::*;

use crate::lines::trim;
use crate::protocol::{
    opt_view, ContentItem, ContentItemView, ReasoningContent, ReasoningContentView,
    ResponseItem, ResponseItemView, TokenUsage, ToolName, ToolNameView,
};
use crate::text::{decimal, push_decimal, str_eq};
use crate::tool_plan::{lookup, ToolPlan};

verus! {

/// The fields of an `error` object that decide how it is reported (each present when it
/// is a string).
#[derive(Clone, Debug, PartialEq, Eq)]
pub struct ChatErrorFields {
    pub message: Option<String>,
    pub code: Option<String>,
    pub kind: Option<String>,
}

pub struct ChatErrorFieldsView {
    pub message: Option<Seq<char>>,
    pub code: Option<Seq<char>>,
    pub kind: Option<Seq<char>>,
}

impl View for ChatErrorFields {
    type V = ChatErrorFieldsView;

    open spec fn view(&self) -> ChatErrorFieldsView {
        ChatErrorFieldsView {
            message: opt_view(self.message),
            code: opt_view(self.code),
            kind: opt_view(self.kind),
        }
    }
}

/// The integer fields of a `usage` object (each present when it is an `i64`).
#[derive(Clone, Copy, Debug, PartialEq, Eq, Structural)]
pub struct UsageFields {
    pub prompt_tokens: Option<i64>,
    pub completion_tokens: Option<i64>,
    pub total_tokens: Option<i64>,
    /// `prompt_tokens_details.cached_tokens`
    pub cached_tokens: Option<i64>,
    /// `completion_tokens_details.reasoning_tokens`
    pub reasoning_tokens: Option<i64>,
}

/// The `function` object of a tool-call delta.
#[derive(Clone, Debug, PartialEq, Eq)]
pub struct FunctionDelta {
    pub name: Option<String>,
    pub arguments: Option<String>,
}

pub struct FunctionDeltaView {
    pub name: Option<Seq<char>>,
    pub arguments: Option<Seq<char>>,
}

impl View for FunctionDelta {
    type V = FunctionDeltaView;

    open spec fn view(&self) -> FunctionDeltaView {
        FunctionDeltaView { name: opt_view(self.name), arguments: opt_view(self.arguments) }
    }
}

/// One entry of a delta's `tool_calls` array.
#[derive(Clone, Debug, PartialEq, Eq)]
pub struct ToolCallDelta {
    pub index: Option<u64>,
    pub id: Option<String>,
    /// Present whenever the entry has a `function` field.
    pub function: Option<FunctionDelta>,
}

pub struct ToolCallDeltaView {
    pub index: Option<u64>,
    pub id: Option<Seq<char>>,
    pub function: Option<FunctionDeltaView>,
}

impl View for ToolCallDelta {
    type V = ToolCallDeltaView;

    open spec fn view(&self) -> ToolCallDeltaView {
        ToolCallDeltaView {
            index: self.index,
            id: opt_view(self.id),
            function: match self.function {
                Some(f) => Some(f@),
                None => None,
            },
        }
    }
}

pub open spec fn deltas_view(v: Seq<ToolCallDelta>) -> Seq<ToolCallDeltaView> {
    v.map_values(|d: ToolCallDelta| d@)
}

/// The `delta` object of a choice.
#[derive(Clone, Debug, PartialEq, Eq)]
pub struct DeltaFields {
    /// Present when the delta has a `reasoning_content` field; holds it when it is a string.
    pub reasoning_content: Option<Option<String>>,
    pub reasoning: Option<String>,
    pub content: Option<String>,
    /// Present when `tool_calls` is an array.
    pub tool_calls: Option<Vec<ToolCallDelta>>,
}

pub struct DeltaFieldsView {
    pub reasoning_content: Option<Option<Seq<char>>>,
    pub reasoning: Option<Seq<char>>,
    pub content: Option<Seq<char>>,
    pub tool_calls: Option<Seq<ToolCallDeltaView>>,
}

impl View for DeltaFields {
    type V = DeltaFieldsView;

    open spec fn view(&self) -> DeltaFieldsView {
        DeltaFieldsView {
            reasoning_content: match self.reasoning_content {
                Some(r) => Some(opt_view(r)),
                None => None,
            },
            reasoning: opt_view(self.reasoning),
            content: opt_view(self.content),
            tool_calls: match self.tool_calls {
                Some(t) => Some(deltas_view(t@)),
                None => None,
            },
        }
    }
}

/// The first element of the `choices` array.
#[derive(Clone, Debug, PartialEq, Eq)]
pub struct ChoiceFields {
    /// Present whenever the choice has a `delta` field.
    pub delta: Option<DeltaFields>,
    pub finish_reason: Option<String>,
}

pub struct ChoiceFieldsView {
    pub delta: Option<DeltaFieldsView>,
    pub finish_reason: Option<Seq<char>>,
}

impl View for ChoiceFields {
    type V = ChoiceFieldsView;

    open spec fn view(&self) -> ChoiceFieldsView {
        ChoiceFieldsView {
            delta: match self.delta {
                Some(d) => Some(d@),
                None => None,
            },
            finish_reason: opt_view(self.finish_reason),
        }
    }
}

/// What a parsed chunk of the stream holds.
#[derive(Clone, Debug, PartialEq, Eq)]
pub struct ChatChunk {
    /// Present whenever the chunk has an `error` field.
    pub error: Option<ChatErrorFields>,
    pub id: Option<String>,
    /// Present whenever the chunk has a `usage` field.
    pub usage: Option<UsageFields>,
    /// Present when `choices` is a non-empty array.
    pub choice: Option<ChoiceFields>,
}

pub struct ChatChunkView {
    pub error: Option<ChatErrorFieldsView>,
    pub id: Option<Seq<char>>,
    pub usage: Option<UsageFields>,
    pub choice: Option<ChoiceFieldsView>,
}

impl View for ChatChunk {
    type V = ChatChunkView;

    open spec fn view(&self) -> ChatChunkView {
        ChatChunkView {
            error: match self.error {
                Some(e) => Some(e@),
                None => None,
            },
            id: opt_view(self.id),
            usage: self.usage,
            choice: match self.choice {
                Some(c) => Some(c@),
                None => None,
            },
        }
    }
}

/// An event of the response stream.
#[derive(Clone, Debug, PartialEq, Eq)]
pub enum StreamEvent {
    OutputItemAdded(ResponseItem),
    OutputItemDone(ResponseItem),
    ReasoningContentDelta { delta: String, content_index: i64 },
    OutputTextDelta(String),
    ToolCallInputDelta { item_id: String, call_id: Option<String>, delta: String },
    Completed { response_id: String, token_usage: Option<TokenUsage>, end_turn: Option<bool> },
}

pub enum StreamEventView {
    OutputItemAdded(ResponseItemView),
    OutputItemDone(ResponseItemView),
    ReasoningContentDelta { delta: Seq<char>, content_index: int },
    OutputTextDelta(Seq<char>),
    ToolCallInputDelta { item_id: Seq<char>, call_id: Option<Seq<char>>, delta: Seq<char> },
    Completed { response_id: Seq<char>, token_usage: Option<TokenUsage>, end_turn: Option<bool> },
}

impl View for StreamEvent {
    type V = StreamEventView;

    open spec fn view(&self) -> StreamEventView {
        match self {
            StreamEvent::OutputItemAdded(i) => StreamEventView::OutputItemAdded(i@),
            StreamEvent::OutputItemDone(i) => StreamEventView::OutputItemDone(i@),
            StreamEvent::ReasoningContentDelta { delta, content_index } =>
                StreamEventView::ReasoningContentDelta {
                delta: delta@,
                content_index: *content_index as int,
            },
            StreamEvent::OutputTextDelta(t) => StreamEventView::OutputTextDelta(t@),
            StreamEvent::ToolCallInputDelta { item_id, call_id, delta } =>
                StreamEventView::ToolCallInputDelta {
                item_id: item_id@,
                call_id: opt_view(*call_id),
                delta: delta@,
            },
            StreamEvent::Completed { response_id, token_usage, end_turn } =>
                StreamEventView::Completed {
                response_id: response_id@,
                token_usage: *token_usage,
                end_turn: *end_turn,
            },
        }
    }
}

/// A failure of the response stream.
#[derive(Clone, Debug, PartialEq, Eq)]
pub enum StreamError {
    Stream(String),
    ContextWindowExceeded,
    QuotaExceeded,
    ServerOverloaded,
    InvalidRequest { message: String },
}

pub enum StreamErrorView {
    Stream(Seq<char>),
    ContextWindowExceeded,
    QuotaExceeded,
    ServerOverloaded,
    InvalidRequest { message: Seq<char> },
}

impl View for StreamError {
    type V = StreamErrorView;

    open spec fn view(&self) -> StreamErrorView {
        match self {
            StreamError::Stream(m) => StreamErrorView::Stream(m@),
            StreamError::ContextWindowExceeded => StreamErrorView::ContextWindowExceeded,
            StreamError::QuotaExceeded => StreamErrorView::QuotaExceeded,
            StreamError::ServerOverloaded => StreamErrorView::ServerOverloaded,
            StreamError::InvalidRequest { message } => StreamErrorView::InvalidRequest {
                message: message@,
            },
        }
    }
}

pub type Emitted = Result<StreamEventView, StreamErrorView>;

pub open spec fn emitted_view(r: Result<StreamEvent, StreamError>) -> Emitted {
    match r {
        Ok(e) => Ok(e@),
        Err(x) => Err(x@),
    }
}

pub open spec fn emitted_seq(v: Seq<Result<StreamEvent, StreamError>>) -> Seq<Emitted> {
    v.map_values(|r: Result<StreamEvent, StreamError>| emitted_view(r))
}

/// A tool call being assembled from deltas.
#[derive(Clone, Debug, PartialEq, Eq)]
pub struct ToolCallState {
    pub id: Option<String>,
    pub name: Option<String>,
    pub arguments: String,
}

pub struct ToolCallStateView {
    pub id: Option<Seq<char>>,
    pub name: Option<Seq<char>>,
    pub arguments: Seq<char>,
}

impl View for ToolCallState {
    type V = ToolCallStateView;

    open spec fn view(&self) -> ToolCallStateView {
        ToolCallStateView { id: opt_view(self.id), name: opt_view(self.name), arguments: self.arguments@ }
    }
}

/// The state of a stream in the abstract. The tool calls are listed by index, in the
/// order their first delta came, each index once.
pub struct StreamStateView {
    pub calls: Seq<(nat, ToolCallStateView)>,
    pub assistant_text: Seq<char>,
    pub assistant_item_added: bool,
    pub reasoning_text: Seq<char>,
    pub reasoning_item_added: bool,
    pub response_id: Seq<char>,
    pub usage: Option<TokenUsage>,
    pub end_turn: Option<bool>,
}

/// A new state and the events emitted to reach it.
pub struct Emission {
    pub state: StreamStateView,
    pub events: Seq<Emitted>,
}

pub open spec fn no_emission(st: StreamStateView) -> Emission {
    Emission { state: st, events: seq![] }
}

/// The empty reasoning item announced when reasoning starts.
pub open spec fn reasoning_item(content: Seq<ReasoningContentView>) -> ResponseItemView {
    ResponseItemView::Reasoning {
        id: None,
        summary: seq![],
        content: Some(content),
        encrypted_content: None,
        metadata: None,
    }
}

/// An assistant message item with the given content.
pub open spec fn assistant_item(content: Seq<ContentItemView>) -> ResponseItemView {
    ResponseItemView::Message {
        id: None,
        role: "assistant"@,
        content,
        phase: None,
        metadata: None,
    }
}

/// Completes the reasoning item, if reasoning text was received.
pub open spec fn flush_reasoning_spec(st: StreamStateView) -> Emission {
    if st.reasoning_text.len() == 0 {
        no_emission(st)
    } else {
        Emission {
            state: StreamStateView { reasoning_text: seq![], reasoning_item_added: false, ..st },
            events: seq![
                Ok(
                    StreamEventView::OutputItemDone(
                        reasoning_item(
                            seq![ReasoningContentView::ReasoningText { text: st.reasoning_text }],
                        ),
                    ),
                ),
            ],
        }
    }
}

/// Completes the assistant message, if text was received.
pub open spec fn flush_assistant_spec(st: StreamStateView) -> Emission {
    if st.assistant_text.len() == 0 {
        no_emission(st)
    } else {
        Emission {
            state: StreamStateView { assistant_text: seq![], assistant_item_added: false, ..st },
            events: seq![
                Ok(
                    StreamEventView::OutputItemDone(
                        assistant_item(seq![ContentItemView::OutputText { text: st.assistant_text }]),
                    ),
                ),
            ],
        }
    }
}

/// The canonical name of a tool the model called by `wire_name`: what the plan decodes
/// it to, else the plain name.
pub open spec fn decoded_name(
    plan: Option<Seq<(Seq<char>, ToolNameView)>>,
    wire_name: Seq<char>,
) -> ToolNameView {
    match plan {
        Some(ids) => match lookup(ids, wire_name) {
            Some(id) => id,
            None => ToolNameView { name: wire_name, namespace: None },
        },
        None => ToolNameView { name: wire_name, namespace: None },
    }
}

/// The item id of the tool call at `index`.
pub open spec fn tool_call_item_id(index: nat) -> Seq<char> {
    "tool-call-"@ + decimal(index)
}

/// The completed function calls, in order; calls that never got a name are skipped.
pub open spec fn tool_call_items(
    calls: Seq<(nat, ToolCallStateView)>,
    plan: Option<Seq<(Seq<char>, ToolNameView)>>,
) -> Seq<Emitted>
    decreases calls.len(),
{
    if calls.len() == 0 {
        seq![]
    } else {
        let rest = tool_call_items(calls.drop_last(), plan);
        let (index, call) = calls.last();
        match call.name {
            None => rest,
            Some(wire_name) => {
                let name = decoded_name(plan, wire_name);
                rest.push(
                    Ok(
                        StreamEventView::OutputItemDone(
                            ResponseItemView::FunctionCall {
                                id: None,
                                name: name.name,
                                namespace: name.namespace,
                                arguments: call.arguments,
                                encrypted_function_args: None,
                                call_id: match call.id {
                                    Some(id) => id,
                                    None => tool_call_item_id(index),
                                },
                                metadata: None,
                            },
                        ),
                    ),
                )
            },
        }
    }
}

/// Completes every pending tool call.
pub open spec fn flush_tool_calls_spec(
    st: StreamStateView,
    plan: Option<Seq<(Seq<char>, ToolNameView)>>,
) -> Emission {
    Emission { state: StreamStateView { calls: seq![], ..st }, events: tool_call_items(st.calls, plan) }
}

/// Completes the reasoning item, the assistant message and the tool calls, in that order.
pub open spec fn flush_chat_spec(st: StreamStateView, plan: Option<Seq<(Seq<char>, ToolNameView)>>) -> Emission {
    let a = flush_reasoning_spec(st);
    let b = flush_assistant_spec(a.state);
    let c = flush_tool_calls_spec(b.state, plan);
    Emission { state: c.state, events: a.events + b.events + c.events }
}

/// A reasoning delta: the assistant message is completed and a reasoning item announced
/// first, unless one is already open.
pub open spec fn reasoning_delta_spec(st: StreamStateView, delta: Seq<char>) -> Emission {
    let pre = if !st.reasoning_item_added {
        let f = flush_assistant_spec(st);
        Emission {
            state: StreamStateView { reasoning_item_added: true, ..f.state },
            events: f.events.push(Ok(StreamEventView::OutputItemAdded(reasoning_item(seq![])))),
        }
    } else {
        no_emission(st)
    };
    Emission {
        state: StreamStateView { reasoning_text: pre.state.reasoning_text + delta, ..pre.state },
        events: pre.events.push(
            Ok(StreamEventView::ReasoningContentDelta { delta, content_index: 0 }),
        ),
    }
}

/// A text delta: the reasoning item is completed and an assistant message announced
/// first, unless one is already open.
pub open spec fn content_delta_spec(st: StreamStateView, delta: Seq<char>) -> Emission {
    let pre = if !st.assistant_item_added {
        let f = flush_reasoning_spec(st);
        Emission {
            state: StreamStateView { assistant_item_added: true, ..f.state },
            events: f.events.push(Ok(StreamEventView::OutputItemAdded(assistant_item(seq![])))),
        }
    } else {
        no_emission(st)
    };
    Emission {
        state: StreamStateView { assistant_text: pre.state.assistant_text + delta, ..pre.state },
        events: pre.events.push(Ok(StreamEventView::OutputTextDelta(delta))),
    }
}

/// Where the tool call with `index` is listed.
pub open spec fn call_position(calls: Seq<(nat, ToolCallStateView)>, index: nat) -> Option<int>
    decreases calls.len(),
{
    if calls.len() == 0 {
        None
    } else if calls.last().0 == index {
        Some(calls.len() - 1)
    } else {
        call_position(calls.drop_last(), index)
    }
}

/// The index a delta addresses: its own when it fits in `usize`, else the next one.
pub open spec fn delta_index(st: StreamStateView, d: ToolCallDeltaView) -> nat {
    match d.index {
        Some(i) => if i <= usize::MAX {
            i as nat
        } else {
            st.calls.len()
        },
        None => st.calls.len(),
    }
}

/// One tool-call delta: the call keeps its first id and first name, and its arguments
/// grow by the delta's, which is also streamed.
pub open spec fn tool_delta_spec(st: StreamStateView, d: ToolCallDeltaView) -> Emission {
    let index = delta_index(st, d);
    let calls1 = match call_position(st.calls, index) {
        Some(_) => st.calls,
        None => st.calls.push((index, ToolCallStateView { id: None, name: None, arguments: seq![] })),
    };
    let p = match call_position(st.calls, index) {
        Some(p) => p,
        None => st.calls.len() as int,
    };
    let cur = calls1[p].1;
    let id = match cur.id {
        Some(x) => Some(x),
        None => d.id,
    };
    let name = match d.function {
        Some(f) => match cur.name {
            Some(x) => Some(x),
            None => f.name,
        },
        None => cur.name,
    };
    let args_delta = match d.function {
        Some(f) => f.arguments,
        None => None,
    };
    let arguments = match args_delta {
        Some(a) => cur.arguments + a,
        None => cur.arguments,
    };
    Emission {
        state: StreamStateView {
            calls: calls1.update(p, (index, ToolCallStateView { id, name, arguments })),
            ..st
        },
        events: match args_delta {
            Some(a) => seq![
                Ok(
                    StreamEventView::ToolCallInputDelta {
                        item_id: tool_call_item_id(index),
                        call_id: id,
                        delta: a,
                    },
                ),
            ],
            None => seq![],
        },
    }
}

/// The tool-call deltas of a chunk, in order.
pub open spec fn tool_deltas_spec(st: StreamStateView, ds: Seq<ToolCallDeltaView>) -> Emission
    decreases ds.len(),
{
    if ds.len() == 0 {
        no_emission(st)
    } else {
        let prev = tool_deltas_spec(st, ds.drop_last());
        let step = tool_delta_spec(prev.state, ds.last());
        Emission { state: step.state, events: prev.events + step.events }
    }
}

/// A delta: its reasoning, then its text, then its tool calls.
pub open spec fn delta_spec(st: StreamStateView, d: DeltaFieldsView) -> Emission {
    let reasoning = match d.reasoning_content {
        Some(r) => r,
        None => d.reasoning,
    };
    let r1 = match reasoning {
        Some(r) => if r.len() > 0 {
            reasoning_delta_spec(st, r)
        } else {
            no_emission(st)
        },
        None => no_emission(st),
    };
    let c1 = match d.content {
        Some(c) => if c.len() > 0 {
            content_delta_spec(r1.state, c)
        } else {
            no_emission(r1.state)
        },
        None => no_emission(r1.state),
    };
    let t1 = match d.tool_calls {
        Some(ds) => tool_deltas_spec(c1.state, ds),
        None => no_emission(c1.state),
    };
    Emission { state: t1.state, events: r1.events + c1.events + t1.events }
}

/// How the provider's error object is reported.
pub open spec fn normalize_error_spec(e: ChatErrorFieldsView) -> StreamErrorView {
    let message = match e.message {
        Some(m) => m,
        None => "Chat Completions provider returned an error"@,
    };
    match e.code {
        Some(c) => if c == "context_length_exceeded"@ || c == "context_window_exceeded"@ {
            StreamErrorView::ContextWindowExceeded
        } else if c == "insufficient_quota"@ || c == "quota_exceeded"@ {
            StreamErrorView::QuotaExceeded
        } else if c == "server_is_overloaded"@ || c == "overloaded"@ {
            StreamErrorView::ServerOverloaded
        } else {
            error_by_kind(e.kind, message)
        },
        None => error_by_kind(e.kind, message),
    }
}

pub open spec fn error_by_kind(kind: Option<Seq<char>>, message: Seq<char>) -> StreamErrorView {
    if kind == Some("invalid_request_error"@) {
        StreamErrorView::InvalidRequest { message }
    } else {
        StreamErrorView::Stream(message)
    }
}

/// The token usage a `usage` object reports: it needs the prompt and completion counts;
/// the total defaults to their sum, the details to zero.
pub open spec fn usage_spec(u: UsageFields) -> Option<TokenUsage> {
    match (u.prompt_tokens, u.completion_tokens) {
        (Some(input), Some(output)) => Some(
            TokenUsage {
                input_tokens: input,
                cached_input_tokens: match u.cached_tokens {
                    Some(c) => c,
                    None => 0,
                },
                cache_write_input_tokens: 0,
                output_tokens: output,
                reasoning_output_tokens: match u.reasoning_tokens {
                    Some(r) => r,
                    None => 0,
                },
                total_tokens: match u.total_tokens {
                    Some(t) => t,
                    None => (input + output) as i64,
                },
            },
        ),
        _ => None,
    }
}

/// A usage object whose counts the stream can add up: without a total, the prompt and
/// completion counts sum within `i64`.
pub open spec fn usage_summable(u: UsageFields) -> bool {
    match (u.prompt_tokens, u.completion_tokens, u.total_tokens) {
        (Some(input), Some(output), None) => i64::MIN <= input + output <= i64::MAX,
        _ => true,
    }
}

/// A chunk the stream can take: unless it reports an error, which is looked at first,
/// its usage counts add up.
pub open spec fn chunk_summable(c: ChatChunkView) -> bool {
    match (c.error, c.usage) {
        (None, Some(u)) => usage_summable(u),
        _ => true,
    }
}

/// The outcome of one chunk: the new state, the events, and whether the stream ended.
pub struct ChunkOutcome {
    pub state: StreamStateView,
    pub events: Seq<Emitted>,
    pub finished: bool,
}

/// What one parsed chunk does to the stream.
pub open spec fn chunk_spec(
    st: StreamStateView,
    chunk: ChatChunkView,
    plan: Option<Seq<(Seq<char>, ToolNameView)>>,
) -> ChunkOutcome {
    match chunk.error {
        Some(e) => ChunkOutcome { state: st, events: seq![Err(normalize_error_spec(e))], finished: true },
        None => {
            let st1 = StreamStateView {
                response_id: match chunk.id {
                    Some(id) => id,
                    None => st.response_id,
                },
                usage: match chunk.usage {
                    Some(u) => match usage_spec(u) {
                        Some(x) => Some(x),
                        None => st.usage,
                    },
                    None => st.usage,
                },
                ..st
            };
            match chunk.choice {
                None => ChunkOutcome { state: st1, events: seq![], finished: false },
                Some(choice) => {
                    let a = match choice.delta {
                        Some(d) => delta_spec(st1, d),
                        None => no_emission(st1),
                    };
                    match choice.finish_reason {
                        Some(r) => if r == "tool_calls"@ {
                            let f = flush_tool_calls_spec(a.state, plan);
                            ChunkOutcome { state: f.state, events: a.events + f.events, finished: false }
                        } else if r == "stop"@ {
                            let f = flush_chat_spec(
                                StreamStateView { end_turn: Some(true), ..a.state },
                                plan,
                            );
                            ChunkOutcome { state: f.state, events: a.events + f.events, finished: false }
                        } else if r == "length"@ {
                            ChunkOutcome {
                                state: a.state,
                                events: a.events.push(Err(StreamErrorView::ContextWindowExceeded)),
                                finished: true,
                            }
                        } else if r == "content_filter"@ {
                            ChunkOutcome {
                                state: a.state,
                                events: a.events.push(
                                    Err(StreamErrorView::Stream("response blocked by content filter"@)),
                                ),
                                finished: true,
                            }
                        } else {
                            ChunkOutcome { state: a.state, events: a.events, finished: false }
                        },
                        None => ChunkOutcome { state: a.state, events: a.events, finished: false },
                    }
                },
            }
        },
    }
}

/// The end of the stream: everything pending is completed, then the response.
pub open spec fn complete_spec(st: StreamStateView, plan: Option<Seq<(Seq<char>, ToolNameView)>>) -> Seq<
    Emitted,
> {
    let f = flush_chat_spec(st, plan);
    f.events.push(
        Ok(
            StreamEventView::Completed {
                response_id: f.state.response_id,
                token_usage: f.state.usage,
                end_turn: f.state.end_turn,
            },
        ),
    )
}

pub open spec fn initial_stream_state() -> StreamStateView {
    StreamStateView {
        calls: seq![],
        assistant_text: seq![],
        assistant_item_added: false,
        reasoning_text: seq![],
        reasoning_item_added: false,
        response_id: seq![],
        usage: None,
        end_turn: None,
    }
}

/// The data of an event that ends the stream: `[DONE]` or `DONE`, around whitespace.
pub open spec fn is_done_spec(data: Seq<char>) -> bool {
    trim(data) == "[DONE]"@ || trim(data) == "DONE"@
}


/// The identities of a plan, if there is one.
pub open spec fn plan_ids(plan: Option<&ToolPlan>) -> Option<Seq<(Seq<char>, ToolNameView)>> {
    match plan {
        Some(p) => Some(p@.identities),
        None => None,
    }
}

pub open spec fn calls_view(v: Seq<(usize, ToolCallState)>) -> Seq<(nat, ToolCallStateView)> {
    v.map_values(|p: (usize, ToolCallState)| (p.0 as nat, p.1@))
}

/// The state of a Chat Completions stream between chunks.
pub struct ChatStreamState {
    tool_calls: Vec<(usize, ToolCallState)>,
    assistant_text: String,
    assistant_item_added: bool,
    reasoning_text: String,
    reasoning_item_added: bool,
    response_id: String,
    usage: Option<TokenUsage>,
    end_turn: Option<bool>,
}

impl View for ChatStreamState {
    type V = StreamStateView;

    closed spec fn view(&self) -> StreamStateView {
        StreamStateView {
            calls: calls_view(self.tool_calls@),
            assistant_text: self.assistant_text@,
            assistant_item_added: self.assistant_item_added,
            reasoning_text: self.reasoning_text@,
            reasoning_item_added: self.reasoning_item_added,
            response_id: self.response_id@,
            usage: self.usage,
            end_turn: self.end_turn,
        }
    }
}

/// Appends one event.
fn emit(events: &mut Vec<Result<StreamEvent, StreamError>>, event: Result<StreamEvent, StreamError>)
    ensures
        emitted_seq(final(events)@) == emitted_seq(old(events)@).push(emitted_view(event)),
{
    events.push(event);
    assert(emitted_seq(events@) =~= emitted_seq(old(events)@).push(emitted_view(event)));
}

/// The empty reasoning item announced when reasoning starts.
fn new_reasoning_item(content: Vec<ReasoningContent>) -> (item: ResponseItem)
    ensures
        item@ == reasoning_item(content@.map_values(|r: ReasoningContent| r@)),
{
    let item = ResponseItem::Reasoning {
        id: None,
        summary: Vec::new(),
        content: Some(content),
        encrypted_content: None,
        internal_chat_message_metadata_passthrough: None,
    };
    assert(crate::protocol::strings_view(Seq::<String>::empty()) =~= Seq::<Seq<char>>::empty());
    item
}

/// An assistant message item with the given content.
fn new_assistant_item(content: Vec<ContentItem>) -> (item: ResponseItem)
    ensures
        item@ == assistant_item(crate::protocol::contents_view(content@)),
{
    ResponseItem::Message {
        id: None,
        role: String::from_str("assistant"),
        content,
        phase: None,
        internal_chat_message_metadata_passthrough: None,
    }
}

/// The item id of the tool call at `index`.
fn tool_call_item_id_exec(index: usize) -> (id: String)
    ensures
        id@ == tool_call_item_id(index as nat),
{
    let mut id = String::from_str("tool-call-");
    push_decimal(&mut id, index as u64);
    id
}

/// How the provider's error object is reported.
pub fn normalize_chat_error(error: &ChatErrorFields) -> (e: StreamError)
    ensures
        e@ == normalize_error_spec(error@),
{
    let message = match &error.message {
        Some(m) => m.clone(),
        None => String::from_str("Chat Completions provider returned an error"),
    };
    if let Some(code) = &error.code {
        let code = code.as_str();
        if str_eq(code, "context_length_exceeded") || str_eq(code, "context_window_exceeded") {
            return StreamError::ContextWindowExceeded;
        }
        if str_eq(code, "insufficient_quota") || str_eq(code, "quota_exceeded") {
            return StreamError::QuotaExceeded;
        }
        if str_eq(code, "server_is_overloaded") || str_eq(code, "overloaded") {
            return StreamError::ServerOverloaded;
        }
    }
    match &error.kind {
        Some(kind) => {
            if str_eq(kind.as_str(), "invalid_request_error") {
                return StreamError::InvalidRequest { message };
            }
        },
        None => {},
    }
    StreamError::Stream(message)
}

/// The token usage a `usage` object reports.
pub fn parse_usage(usage: &UsageFields) -> (parsed: Option<TokenUsage>)
    requires
        usage_summable(*usage),
    ensures
        parsed == usage_spec(*usage),
{
    let input_tokens = match usage.prompt_tokens {
        Some(t) => t,
        None => {
            return None;
        },
    };
    let output_tokens = match usage.completion_tokens {
        Some(t) => t,
        None => {
            return None;
        },
    };
    let total_tokens = match usage.total_tokens {
        Some(t) => t,
        None => input_tokens + output_tokens,
    };
    Some(
        TokenUsage {
            input_tokens,
            cached_input_tokens: match usage.cached_tokens {
                Some(c) => c,
                None => 0,
            },
            cache_write_input_tokens: 0,
            output_tokens,
            reasoning_output_tokens: match usage.reasoning_tokens {
                Some(r) => r,
                None => 0,
            },
            total_tokens,
        },
    )
}

/// Whether the data of an event ends the stream.
pub fn is_done_data(data: &str) -> (done: bool)
    ensures
        done == is_done_spec(data@),
{
    let chars = crate::text::chars_of(data);
    let trimmed = crate::lines::trim_chars(chars.as_slice());
    let done1 = crate::text::chars_of("[DONE]");
    let done2 = crate::text::chars_of("DONE");
    crate::lines::chars_equal(trimmed.as_slice(), done1.as_slice()) || crate::lines::chars_equal(
        trimmed.as_slice(),
        done2.as_slice(),
    )
}

/// The failure reported when no event arrives in time.
pub fn idle_timeout_error() -> (e: StreamError)
    ensures
        e@ == StreamErrorView::Stream("idle timeout waiting for Chat Completions SSE"@),
{
    StreamError::Stream(String::from_str("idle timeout waiting for Chat Completions SSE"))
}


impl ChatStreamState {
    /// The state before the first chunk.
    pub fn new() -> (state: Self)
        ensures
            state@ == initial_stream_state(),
    {
        let state = ChatStreamState {
            tool_calls: Vec::new(),
            assistant_text: String::new(),
            assistant_item_added: false,
            reasoning_text: String::new(),
            reasoning_item_added: false,
            response_id: String::new(),
            usage: None,
            end_turn: None,
        };
        assert(state@.calls =~= Seq::<(nat, ToolCallStateView)>::empty());
        state
    }

    /// Completes the reasoning item, if reasoning text was received.
    fn flush_reasoning_item(&mut self, events: &mut Vec<Result<StreamEvent, StreamError>>)
        ensures
            final(self)@ == flush_reasoning_spec(old(self)@).state,
            emitted_seq(final(events)@) == emitted_seq(old(events)@) + flush_reasoning_spec(
                old(self)@,
            ).events,
    {
        if self.reasoning_text.as_str().is_empty() {
            assert(emitted_seq(events@) + seq![] =~= emitted_seq(events@));
            return ;
        }
        let mut text = String::new();
        std::mem::swap(&mut text, &mut self.reasoning_text);
        let mut content: Vec<ReasoningContent> = Vec::new();
        content.push(ReasoningContent::ReasoningText { text });
        assert(content@.map_values(|r: ReasoningContent| r@) =~= seq![
            ReasoningContentView::ReasoningText { text: old(self)@.reasoning_text },
        ]);
        let ghost before = emitted_seq(events@);
        emit(events, Ok(StreamEvent::OutputItemDone(new_reasoning_item(content))));
        self.reasoning_item_added = false;
        assert(emitted_seq(events@) =~= before + flush_reasoning_spec(old(self)@).events);
    }

    /// Completes the assistant message, if text was received.
    fn flush_assistant_item(&mut self, events: &mut Vec<Result<StreamEvent, StreamError>>)
        ensures
            final(self)@ == flush_assistant_spec(old(self)@).state,
            emitted_seq(final(events)@) == emitted_seq(old(events)@) + flush_assistant_spec(
                old(self)@,
            ).events,
    {
        if self.assistant_text.as_str().is_empty() {
            assert(emitted_seq(events@) + seq![] =~= emitted_seq(events@));
            return ;
        }
        let mut text = String::new();
        std::mem::swap(&mut text, &mut self.assistant_text);
        let mut content: Vec<ContentItem> = Vec::new();
        content.push(ContentItem::OutputText { text });
        assert(crate::protocol::contents_view(content@) =~= seq![
            ContentItemView::OutputText { text: old(self)@.assistant_text },
        ]);
        let ghost before = emitted_seq(events@);
        emit(events, Ok(StreamEvent::OutputItemDone(new_assistant_item(content))));
        self.assistant_item_added = false;
        assert(emitted_seq(events@) =~= before + flush_assistant_spec(old(self)@).events);
    }

    /// Completes every pending tool call, in the order their first delta came.
    fn flush_tool_calls(
        &mut self,
        plan: Option<&ToolPlan>,
        events: &mut Vec<Result<StreamEvent, StreamError>>,
    )
        ensures
            final(self)@ == flush_tool_calls_spec(old(self)@, plan_ids(plan)).state,
            emitted_seq(final(events)@) == emitted_seq(old(events)@) + flush_tool_calls_spec(
                old(self)@,
                plan_ids(plan),
            ).events,
    {
        let mut calls: Vec<(usize, ToolCallState)> = Vec::new();
        std::mem::swap(&mut calls, &mut self.tool_calls);
        let ghost cv = calls_view(calls@);
        let ghost start = emitted_seq(events@);
        assert(cv.take(0) =~= Seq::<(nat, ToolCallStateView)>::empty());
        assert(start + seq![] =~= start);
        for entry in it: calls
            invariant
                it.seq() == calls@,
                cv == calls_view(calls@),
                emitted_seq(events@) == start + tool_call_items(cv.take(it.index() as int), plan_ids(plan)),
        {
            let ghost idx = it.index() as int;
            assert(cv.take(idx + 1).drop_last() =~= cv.take(idx));
            assert(cv.take(idx + 1).last() == (entry.0 as nat, entry.1@));
            let (index, state) = entry;
            match state.name {
                None => {},
                Some(wire_name) => {
                    let name = match plan {
                        Some(p) => match p.decode_flat_name(wire_name.as_str()) {
                            Some(t) => t,
                            None => ToolName::plain(wire_name.as_str()),
                        },
                        None => ToolName::plain(wire_name.as_str()),
                    };
                    let call_id = match state.id {
                        Some(id) => id,
                        None => tool_call_item_id_exec(index),
                    };
                    let ghost before = emitted_seq(events@);
                    emit(
                        events,
                        Ok(
                            StreamEvent::OutputItemDone(
                                ResponseItem::FunctionCall {
                                    id: None,
                                    name: name.name,
                                    namespace: name.namespace,
                                    arguments: state.arguments,
                                    encrypted_function_args: None,
                                    call_id,
                                    internal_chat_message_metadata_passthrough: None,
                                },
                            ),
                        ),
                    );
                    assert(emitted_seq(events@) =~= start + tool_call_items(cv.take(idx + 1), plan_ids(plan)));
                },
            }
        }
        assert(cv.take(cv.len() as int) =~= cv);
        assert(self@.calls =~= Seq::<(nat, ToolCallStateView)>::empty());
    }

    /// Completes the reasoning item, the assistant message and the tool calls.
    fn flush_chat_state(&mut self, plan: Option<&ToolPlan>, events: &mut Vec<Result<StreamEvent, StreamError>>)
        ensures
            final(self)@ == flush_chat_spec(old(self)@, plan_ids(plan)).state,
            emitted_seq(final(events)@) == emitted_seq(old(events)@) + flush_chat_spec(
                old(self)@,
                plan_ids(plan),
            ).events,
    {
        let ghost e0 = emitted_seq(events@);
        self.flush_reasoning_item(events);
        self.flush_assistant_item(events);
        self.flush_tool_calls(plan, events);
        let ghost a = flush_reasoning_spec(old(self)@);
        let ghost b = flush_assistant_spec(a.state);
        let ghost c = flush_tool_calls_spec(b.state, plan_ids(plan));
        assert(emitted_seq(events@) =~= e0 + (a.events + b.events + c.events));
    }
}


impl ChatStreamState {
    /// A reasoning delta (see `reasoning_delta_spec`).
    fn reasoning_delta(&mut self, delta: &str, events: &mut Vec<Result<StreamEvent, StreamError>>)
        ensures
            final(self)@ == reasoning_delta_spec(old(self)@, delta@).state,
            emitted_seq(final(events)@) == emitted_seq(old(events)@) + reasoning_delta_spec(
                old(self)@,
                delta@,
            ).events,
    {
        let ghost e0 = emitted_seq(events@);
        if !self.reasoning_item_added {
            self.flush_assistant_item(events);
            emit(events, Ok(StreamEvent::OutputItemAdded(new_reasoning_item(Vec::new()))));
            assert(Seq::<ReasoningContent>::empty().map_values(|r: ReasoningContent| r@)
                =~= Seq::<ReasoningContentView>::empty());
            self.reasoning_item_added = true;
        } else {
            assert(e0 + seq![] =~= e0);
        }
        let ghost mid = emitted_seq(events@);
        self.reasoning_text.append(delta);
        emit(
            events,
            Ok(StreamEvent::ReasoningContentDelta { delta: String::from_str(delta), content_index: 0 }),
        );
        let ghost spec = reasoning_delta_spec(old(self)@, delta@);
        assert(emitted_seq(events@) =~= e0 + spec.events);
    }

    /// A text delta (see `content_delta_spec`).
    fn content_delta(&mut self, delta: &str, events: &mut Vec<Result<StreamEvent, StreamError>>)
        ensures
            final(self)@ == content_delta_spec(old(self)@, delta@).state,
            emitted_seq(final(events)@) == emitted_seq(old(events)@) + content_delta_spec(
                old(self)@,
                delta@,
            ).events,
    {
        let ghost e0 = emitted_seq(events@);
        if !self.assistant_item_added {
            self.flush_reasoning_item(events);
            emit(events, Ok(StreamEvent::OutputItemAdded(new_assistant_item(Vec::new()))));
            assert(crate::protocol::contents_view(Seq::<ContentItem>::empty())
                =~= Seq::<ContentItemView>::empty());
            self.assistant_item_added = true;
        } else {
            assert(e0 + seq![] =~= e0);
        }
        self.assistant_text.append(delta);
        emit(events, Ok(StreamEvent::OutputTextDelta(String::from_str(delta))));
        let ghost spec = content_delta_spec(old(self)@, delta@);
        assert(emitted_seq(events@) =~= e0 + spec.events);
    }

    /// One tool-call delta (see `tool_delta_spec`).
    fn tool_call_delta(&mut self, d: &ToolCallDelta, events: &mut Vec<Result<StreamEvent, StreamError>>)
        ensures
            final(self)@ == tool_delta_spec(old(self)@, d@).state,
            emitted_seq(final(events)@) == emitted_seq(old(events)@) + tool_delta_spec(
                old(self)@,
                d@,
            ).events,
    {
        let ghost st = self@;
        let ghost cv = self@.calls;
        let n = self.tool_calls.len();
        let index: usize = match d.index {
            Some(i) => if i <= usize::MAX as u64 {
                i as usize
            } else {
                n
            },
            None => n,
        };
        assert(index as nat == delta_index(st, d@));
        let mut j = n;
        let mut found: Option<usize> = None;
        assert(cv.take(n as int) =~= cv);
        while j > 0
            invariant_except_break
                found is None,
            invariant
                n == self.tool_calls@.len(),
                cv == calls_view(self.tool_calls@),
                j <= n,
                call_position(cv, index as nat) == call_position(cv.take(j as int), index as nat),
            ensures
                match found {
                    Some(p) => call_position(cv, index as nat) == Some(p as int) && p < n,
                    None => call_position(cv, index as nat) is None,
                },
            decreases j,
        {
            assert(cv.take(j as int).drop_last() =~= cv.take(j - 1));
            assert(cv.take(j as int).last() == cv[j - 1]);
            if self.tool_calls[j - 1].0 == index {
                found = Some(j - 1);
                break;
            }
            j = j - 1;
        }
        let p = match found {
            Some(p) => p,
            None => {
                self.tool_calls.push(
                    (index, ToolCallState { id: None, name: None, arguments: String::new() }),
                );
                assert(calls_view(self.tool_calls@) =~= cv.push(
                    (index as nat, ToolCallStateView { id: None, name: None, arguments: seq![] }),
                ));
                n
            },
        };
        let ghost calls1 = calls_view(self.tool_calls@);
        let ghost before_remove = self.tool_calls@;
        let (_, cur) = self.tool_calls.remove(p);
        assert(cur@ == calls1[p as int].1);
        let id = match cur.id {
            Some(x) => Some(x),
            None => crate::protocol::copy_opt(&d.id),
        };
        let name = match &d.function {
            Some(f) => match cur.name {
                Some(x) => Some(x),
                None => crate::protocol::copy_opt(&f.name),
            },
            None => cur.name,
        };
        let mut arguments = cur.arguments;
        let ghost e0 = emitted_seq(events@);
        match &d.function {
            Some(f) => match &f.arguments {
                Some(a) => {
                    arguments.append(a.as_str());
                    emit(
                        events,
                        Ok(
                            StreamEvent::ToolCallInputDelta {
                                item_id: tool_call_item_id_exec(index),
                                call_id: crate::protocol::copy_opt(&id),
                                delta: a.clone(),
                            },
                        ),
                    );
                },
                None => {
                    assert(e0 + seq![] =~= e0);
                },
            },
            None => {
                assert(e0 + seq![] =~= e0);
            },
        }
        let entry = (index, ToolCallState { id, name, arguments });
        self.tool_calls.insert(p, entry);
        proof {
            let spec = tool_delta_spec(st, d@);
            before_remove.remove_ensures(p as int);
            assert(self.tool_calls@ =~= before_remove.update(p as int, entry));
            assert(calls_view(self.tool_calls@) =~= calls1.update(p as int, (index as nat, entry.1@)));
            assert(self@.calls == spec.state.calls);
            assert(emitted_seq(events@) =~= e0 + spec.events);
        }
    }

    /// A delta of a choice: reasoning, then text, then tool calls.
    fn apply_delta(&mut self, d: &DeltaFields, events: &mut Vec<Result<StreamEvent, StreamError>>)
        ensures
            final(self)@ == delta_spec(old(self)@, d@).state,
            emitted_seq(final(events)@) == emitted_seq(old(events)@) + delta_spec(old(self)@, d@).events,
    {
        let ghost e0 = emitted_seq(events@);
        let ghost dv = d@;
        let ghost reasoning = match dv.reasoning_content {
            Some(r) => r,
            None => dv.reasoning,
        };
        let reasoning_exec: Option<&String> = match &d.reasoning_content {
            Some(r) => match r {
                Some(text) => Some(text),
                None => None,
            },
            None => match &d.reasoning {
                Some(text) => Some(text),
                None => None,
            },
        };
        match reasoning_exec {
            Some(r) => {
                assert(reasoning == Some(r@));
                if !r.as_str().is_empty() {
                    self.reasoning_delta(r.as_str(), events);
                } else {
                    assert(e0 + seq![] =~= e0);
                }
            },
            None => {
                assert(reasoning is None);
                assert(e0 + seq![] =~= e0);
            },
        }
        let ghost r1 = if reasoning matches Some(r) && r.len() > 0 {
            reasoning_delta_spec(old(self)@, reasoning->0)
        } else {
            no_emission(old(self)@)
        };
        let ghost e1 = emitted_seq(events@);
        assert(self@ == r1.state);
        match &d.content {
            Some(c) => {
                if !c.as_str().is_empty() {
                    self.content_delta(c.as_str(), events);
                } else {
                    assert(e1 + seq![] =~= e1);
                }
            },
            None => {
                assert(e1 + seq![] =~= e1);
            },
        }
        let ghost e2 = emitted_seq(events@);
        let ghost s2 = self@;
        match &d.tool_calls {
            Some(ds) => {
                let ghost dvs = deltas_view(ds@);
                let mut k: usize = 0;
                assert(dvs.take(0) =~= Seq::<ToolCallDeltaView>::empty());
                assert(e2 + seq![] =~= e2);
                while k < ds.len()
                    invariant
                        dvs == deltas_view(ds@),
                        k <= ds@.len(),
                        self@ == tool_deltas_spec(s2, dvs.take(k as int)).state,
                        emitted_seq(events@) == e2 + tool_deltas_spec(s2, dvs.take(k as int)).events,
                    decreases ds@.len() - k,
                {
                    assert(dvs.take(k + 1).drop_last() =~= dvs.take(k as int));
                    assert(dvs.take(k + 1).last() == ds@[k as int]@);
                    let ghost before = emitted_seq(events@);
                    self.tool_call_delta(&ds[k], events);
                    let ghost prev = tool_deltas_spec(s2, dvs.take(k as int));
                    let ghost step = tool_delta_spec(prev.state, ds@[k as int]@);
                    assert(emitted_seq(events@) =~= e2 + (prev.events + step.events));
                    k = k + 1;
                }
                assert(dvs.take(ds@.len() as int) =~= dvs);
            },
            None => {
                assert(e2 + seq![] =~= e2);
            },
        }
        let ghost spec = delta_spec(old(self)@, dv);
        assert(emitted_seq(events@) =~= e0 + spec.events);
    }

    /// Takes one parsed chunk of the stream: returns the events to send, and whether the
    /// stream has ended.
    pub fn on_chunk(&mut self, chunk: &ChatChunk, plan: Option<&ToolPlan>) -> (out: (
        Vec<Result<StreamEvent, StreamError>>,
        bool,
    ))
        requires
            chunk_summable(chunk@),
        ensures
            final(self)@ == chunk_spec(old(self)@, chunk@, plan_ids(plan)).state,
            emitted_seq(out.0@) == chunk_spec(old(self)@, chunk@, plan_ids(plan)).events,
            out.1 == chunk_spec(old(self)@, chunk@, plan_ids(plan)).finished,
    {
        let mut events: Vec<Result<StreamEvent, StreamError>> = Vec::new();
        assert(emitted_seq(events@) =~= Seq::<Emitted>::empty());
        if let Some(error) = &chunk.error {
            emit(&mut events, Err(normalize_chat_error(error)));
            return (events, true);
        }
        if let Some(id) = &chunk.id {
            self.response_id = id.clone();
        }
        if let Some(usage) = &chunk.usage {
            if let Some(parsed) = parse_usage(usage) {
                self.usage = Some(parsed);
            }
        }
        let choice = match &chunk.choice {
            None => {
                return (events, false);
            },
            Some(choice) => choice,
        };
        if let Some(delta) = &choice.delta {
            self.apply_delta(delta, &mut events);
        }
        let ghost e1 = emitted_seq(events@);
        if let Some(reason) = &choice.finish_reason {
            let reason = reason.as_str();
            if str_eq(reason, "tool_calls") {
                self.flush_tool_calls(plan, &mut events);
            } else if str_eq(reason, "stop") {
                self.end_turn = Some(true);
                self.flush_chat_state(plan, &mut events);
            } else if str_eq(reason, "length") {
                emit(&mut events, Err(StreamError::ContextWindowExceeded));
                return (events, true);
            } else if str_eq(reason, "content_filter") {
                emit(
                    &mut events,
                    Err(StreamError::Stream(String::from_str("response blocked by content filter"))),
                );
                return (events, true);
            }
        }
        (events, false)
    }

    /// The end of the stream: completes everything pending, then the response.
    pub fn complete(&mut self, plan: Option<&ToolPlan>) -> (events: Vec<Result<StreamEvent, StreamError>>)
        ensures
            final(self)@ == flush_chat_spec(old(self)@, plan_ids(plan)).state,
            emitted_seq(events@) == complete_spec(old(self)@, plan_ids(plan)),
    {
        let mut events: Vec<Result<StreamEvent, StreamError>> = Vec::new();
        assert(emitted_seq(events@) =~= Seq::<Emitted>::empty());
        self.flush_chat_state(plan, &mut events);
        let ghost f = flush_chat_spec(old(self)@, plan_ids(plan));
        assert(emitted_seq(events@) =~= f.events);
        emit(
            &mut events,
            Ok(
                StreamEvent::Completed {
                    response_id: self.response_id.clone(),
                    token_usage: self.usage,
                    end_turn: self.end_turn,
                },
            ),
        );
        events
    }
}


/// What the event-stream reader delivers next.
pub enum SseInput {
    /// An event's data, with the chunk it parses to when it is JSON (`None` otherwise).
    Data { data: String, chunk: Option<ChatChunk> },
    /// The byte stream failed, with its description.
    Failed { error: String },
    /// The byte stream ended.
    Ended,
    /// No event arrived within the idle timeout.
    TimedOut,
}

pub enum SseInputView {
    Data { data: Seq<char>, chunk: Option<ChatChunkView> },
    Failed { error: Seq<char> },
    Ended,
    TimedOut,
}

impl View for SseInput {
    type V = SseInputView;

    open spec fn view(&self) -> SseInputView {
        match self {
            SseInput::Data { data, chunk } => SseInputView::Data {
                data: data@,
                chunk: match chunk {
                    Some(c) => Some(c@),
                    None => None,
                },
            },
            SseInput::Failed { error } => SseInputView::Failed { error: error@ },
            SseInput::Ended => SseInputView::Ended,
            SseInput::TimedOut => SseInputView::TimedOut,
        }
    }
}

/// The end of the stream: everything pending is completed, then the response.
pub open spec fn completion_outcome(st: StreamStateView, plan: Option<Seq<(Seq<char>, ToolNameView)>>) -> ChunkOutcome {
    ChunkOutcome { state: flush_chat_spec(st, plan).state, events: complete_spec(st, plan), finished: true }
}

/// What the stream does with each input: the end marker or the end of the bytes complete
/// the response; data that is not JSON is skipped; a chunk is processed; a failure or an
/// idle timeout is reported and ends the stream.
pub open spec fn input_spec(
    st: StreamStateView,
    input: SseInputView,
    plan: Option<Seq<(Seq<char>, ToolNameView)>>,
) -> ChunkOutcome {
    match input {
        SseInputView::Data { data, chunk } => if is_done_spec(data) {
            completion_outcome(st, plan)
        } else {
            match chunk {
                None => ChunkOutcome { state: st, events: seq![], finished: false },
                Some(c) => chunk_spec(st, c, plan),
            }
        },
        SseInputView::Failed { error } => ChunkOutcome {
            state: st,
            events: seq![Err(StreamErrorView::Stream(error))],
            finished: true,
        },
        SseInputView::Ended => completion_outcome(st, plan),
        SseInputView::TimedOut => ChunkOutcome {
            state: st,
            events: seq![Err(StreamErrorView::Stream("idle timeout waiting for Chat Completions SSE"@))],
            finished: true,
        },
    }
}

/// The inputs the stream can take: a chunk's usage must add up within `i64`.
pub open spec fn input_summable(input: SseInputView) -> bool {
    match input {
        SseInputView::Data { data, chunk: Some(c) } => !is_done_spec(data) ==> chunk_summable(c),
        _ => true,
    }
}

impl ChatStreamState {
    /// Takes the next input of the event stream (see `input_spec`): the events to send,
    /// and whether the stream is finished.
    pub fn on_input(&mut self, input: &SseInput, plan: Option<&ToolPlan>) -> (out: (
        Vec<Result<StreamEvent, StreamError>>,
        bool,
    ))
        requires
            input_summable(input@),
        ensures
            final(self)@ == input_spec(old(self)@, input@, plan_ids(plan)).state,
            emitted_seq(out.0@) == input_spec(old(self)@, input@, plan_ids(plan)).events,
            out.1 == input_spec(old(self)@, input@, plan_ids(plan)).finished,
    {
        match input {
            SseInput::Data { data, chunk } => {
                if is_done_data(data.as_str()) {
                    return (self.complete(plan), true);
                }
                match chunk {
                    None => {
                        let events: Vec<Result<StreamEvent, StreamError>> = Vec::new();
                        assert(emitted_seq(events@) =~= Seq::<Emitted>::empty());
                        (events, false)
                    },
                    Some(c) => self.on_chunk(c, plan),
                }
            },
            SseInput::Failed { error } => {
                let mut events: Vec<Result<StreamEvent, StreamError>> = Vec::new();
                events.push(Err(StreamError::Stream(error.clone())));
                assert(emitted_seq(events@) =~= seq![emitted_view(events@[0])]);
                (events, true)
            },
            SseInput::Ended => (self.complete(plan), true),
            SseInput::TimedOut => {
                let mut events: Vec<Result<StreamEvent, StreamError>> = Vec::new();
                events.push(Err(idle_timeout_error()));
                assert(emitted_seq(events@) =~= seq![emitted_view(events@[0])]);
                (events, true)
            },
        }
    }
}


/// The open items of a stream: an item is open exactly while it has text, and the
/// assistant message and the reasoning item are never open together.
pub open spec fn items_wf(st: StreamStateView) -> bool {
    &&& st.assistant_item_added == (st.assistant_text.len() > 0)
    &&& st.reasoning_item_added == (st.reasoning_text.len() > 0)
    &&& !(st.assistant_item_added && st.reasoning_item_added)
}

proof fn lemma_tool_deltas_keep_items(st: StreamStateView, ds: Seq<ToolCallDeltaView>)
    ensures
        tool_deltas_spec(st, ds).state.assistant_text == st.assistant_text,
        tool_deltas_spec(st, ds).state.assistant_item_added == st.assistant_item_added,
        tool_deltas_spec(st, ds).state.reasoning_text == st.reasoning_text,
        tool_deltas_spec(st, ds).state.reasoning_item_added == st.reasoning_item_added,
    decreases ds.len(),
{
    if ds.len() > 0 {
        lemma_tool_deltas_keep_items(st, ds.drop_last());
    }
}

proof fn lemma_delta_items_wf(st: StreamStateView, d: DeltaFieldsView)
    requires
        items_wf(st),
    ensures
        items_wf(delta_spec(st, d).state),
{
    let reasoning = match d.reasoning_content {
        Some(r) => r,
        None => d.reasoning,
    };
    let r1 = match reasoning {
        Some(r) => if r.len() > 0 {
            reasoning_delta_spec(st, r)
        } else {
            no_emission(st)
        },
        None => no_emission(st),
    };
    assert(items_wf(r1.state));
    let c1 = match d.content {
        Some(c) => if c.len() > 0 {
            content_delta_spec(r1.state, c)
        } else {
            no_emission(r1.state)
        },
        None => no_emission(r1.state),
    };
    assert(items_wf(c1.state));
    if let Some(ds) = d.tool_calls {
        lemma_tool_deltas_keep_items(c1.state, ds);
    }
}

/// The stream never interleaves the assistant message and the reasoning item: at most
/// one is open at a time, and an item is open exactly while it has text. Every chunk keeps
/// this so.
pub proof fn lemma_chunk_keeps_items_wf(
    st: StreamStateView,
    chunk: ChatChunkView,
    plan: Option<Seq<(Seq<char>, ToolNameView)>>,
)
    requires
        items_wf(st),
    ensures
        items_wf(chunk_spec(st, chunk, plan).state),
{
    if chunk.error is None {
        let st1 = StreamStateView {
            response_id: match chunk.id {
                Some(id) => id,
                None => st.response_id,
            },
            usage: match chunk.usage {
                Some(u) => match usage_spec(u) {
                    Some(x) => Some(x),
                    None => st.usage,
                },
                None => st.usage,
            },
            ..st
        };
        if let Some(choice) = chunk.choice {
            if let Some(d) = choice.delta {
                lemma_delta_items_wf(st1, d);
            }
        }
    }
}

/// The state before the first chunk has no open item.
pub proof fn lemma_initial_items_wf()
    ensures
        items_wf(initial_stream_state()),
{
}

/// An event that carries the response along: neither an error nor the completion.
pub open spec fn is_progress(e: Emitted) -> bool {
    e is Ok && !(e->Ok_0 is Completed)
}

/// Every event carries the response along: none reports an error or completes it.
pub open spec fn all_progress(events: Seq<Emitted>) -> bool {
    forall|i: int| 0 <= i < events.len() ==> is_progress(#[trigger] events[i])
}

proof fn lemma_all_progress_concat(a: Seq<Emitted>, b: Seq<Emitted>)
    requires
        all_progress(a),
        all_progress(b),
    ensures
        all_progress(a + b),
{
    assert forall|i: int| 0 <= i < (a + b).len() implies is_progress(#[trigger] (a + b)[i]) by {
        if i < a.len() {
            assert((a + b)[i] == a[i]);
        } else {
            assert((a + b)[i] == b[i - a.len()]);
        }
    }
}

proof fn lemma_tool_call_items_ok(calls: Seq<(nat, ToolCallStateView)>, plan: Option<Seq<(Seq<char>, ToolNameView)>>)
    ensures
        all_progress(tool_call_items(calls, plan)),
    decreases calls.len(),
{
    if calls.len() > 0 {
        lemma_tool_call_items_ok(calls.drop_last(), plan);
    }
}

proof fn lemma_flush_chat_ok(st: StreamStateView, plan: Option<Seq<(Seq<char>, ToolNameView)>>)
    ensures
        all_progress(flush_chat_spec(st, plan).events),
{
    let a = flush_reasoning_spec(st);
    let b = flush_assistant_spec(a.state);
    let c = flush_tool_calls_spec(b.state, plan);
    lemma_tool_call_items_ok(b.state.calls, plan);
    lemma_all_progress_concat(a.events, b.events);
    lemma_all_progress_concat(a.events + b.events, c.events);
}

proof fn lemma_tool_deltas_ok(st: StreamStateView, ds: Seq<ToolCallDeltaView>)
    ensures
        all_progress(tool_deltas_spec(st, ds).events),
    decreases ds.len(),
{
    if ds.len() > 0 {
        lemma_tool_deltas_ok(st, ds.drop_last());
        let prev = tool_deltas_spec(st, ds.drop_last());
        lemma_all_progress_concat(prev.events, tool_delta_spec(prev.state, ds.last()).events);
    }
}

proof fn lemma_delta_ok(st: StreamStateView, d: DeltaFieldsView)
    ensures
        all_progress(delta_spec(st, d).events),
{
    let reasoning = match d.reasoning_content {
        Some(r) => r,
        None => d.reasoning,
    };
    let r1 = match reasoning {
        Some(r) => if r.len() > 0 {
            reasoning_delta_spec(st, r)
        } else {
            no_emission(st)
        },
        None => no_emission(st),
    };
    let c1 = match d.content {
        Some(c) => if c.len() > 0 {
            content_delta_spec(r1.state, c)
        } else {
            no_emission(r1.state)
        },
        None => no_emission(r1.state),
    };
    let t1 = match d.tool_calls {
        Some(ds) => tool_deltas_spec(c1.state, ds),
        None => no_emission(c1.state),
    };
    if let Some(ds) = d.tool_calls {
        lemma_tool_deltas_ok(c1.state, ds);
    }
    lemma_all_progress_concat(r1.events, c1.events);
    lemma_all_progress_concat(r1.events + c1.events, t1.events);
}

/// How provider error codes are reported: context-length codes as the context window
/// being exceeded, quota codes as the quota being exceeded, overload codes as the server
/// being overloaded; any other error is an invalid request when its type says so, and a
/// stream failure with the provider's message otherwise. A chunk that carries such an
/// error ends the stream with exactly that error.
pub proof fn lemma_provider_error_codes(
    st: StreamStateView,
    chunk: ChatChunkView,
    plan: Option<Seq<(Seq<char>, ToolNameView)>>,
)
    ensures
        chunk.error matches Some(e) ==> {
            let reported = chunk_spec(st, chunk, plan);
            let known = e.code == Some("context_length_exceeded"@) || e.code == Some("context_window_exceeded"@)
                || e.code == Some("insufficient_quota"@) || e.code == Some("quota_exceeded"@)
                || e.code == Some("server_is_overloaded"@) || e.code == Some("overloaded"@);
            let message = match e.message {
                Some(m) => m,
                None => "Chat Completions provider returned an error"@,
            };
            &&& reported.finished
            &&& reported.events.len() == 1
            &&& (e.code == Some("context_length_exceeded"@) || e.code == Some("context_window_exceeded"@))
                ==> reported.events[0] == Err::<StreamEventView, StreamErrorView>(StreamErrorView::ContextWindowExceeded)
            &&& (e.code == Some("insufficient_quota"@) || e.code == Some("quota_exceeded"@))
                ==> reported.events[0] == Err::<StreamEventView, StreamErrorView>(StreamErrorView::QuotaExceeded)
            &&& (e.code == Some("server_is_overloaded"@) || e.code == Some("overloaded"@))
                ==> reported.events[0] == Err::<StreamEventView, StreamErrorView>(StreamErrorView::ServerOverloaded)
            &&& (!known && e.kind == Some("invalid_request_error"@)) ==> reported.events[0]
                == Err::<StreamEventView, StreamErrorView>(StreamErrorView::InvalidRequest { message })
            &&& (!known && e.kind != Some("invalid_request_error"@)) ==> reported.events[0]
                == Err::<StreamEventView, StreamErrorView>(StreamErrorView::Stream(message))
        },
{
    if let Some(e) = chunk.error {
        reveal_strlit("context_length_exceeded");
        reveal_strlit("context_window_exceeded");
        reveal_strlit("insufficient_quota");
        reveal_strlit("quota_exceeded");
        reveal_strlit("server_is_overloaded");
        reveal_strlit("overloaded");
        let reported = chunk_spec(st, chunk, plan);
        assert(reported.events =~= seq![Err::<StreamEventView, StreamErrorView>(normalize_error_spec(e))]);
        assert("context_length_exceeded"@[0] != "insufficient_quota"@[0]);
        assert("context_length_exceeded"@[0] != "quota_exceeded"@[0]);
        assert("context_window_exceeded"@[0] != "insufficient_quota"@[0]);
        assert("context_window_exceeded"@[0] != "quota_exceeded"@[0]);
        assert("context_length_exceeded"@[0] != "server_is_overloaded"@[0]);
        assert("context_length_exceeded"@[0] != "overloaded"@[0]);
        assert("context_window_exceeded"@[0] != "server_is_overloaded"@[0]);
        assert("context_window_exceeded"@[0] != "overloaded"@[0]);
        assert("insufficient_quota"@[0] != "server_is_overloaded"@[0]);
        assert("insufficient_quota"@[0] != "overloaded"@[0]);
        assert("quota_exceeded"@[0] != "server_is_overloaded"@[0]);
        assert("quota_exceeded"@[0] != "overloaded"@[0]);
    }
}

/// A chunk reports an error only as the last event of a stream it ends, and a chunk that
/// ends the stream always reports one: failures never pass unnoticed or continue.
pub proof fn lemma_errors_end_the_stream(
    st: StreamStateView,
    chunk: ChatChunkView,
    plan: Option<Seq<(Seq<char>, ToolNameView)>>,
)
    ensures
        ({
            let out = chunk_spec(st, chunk, plan);
            &&& out.finished ==> out.events.len() > 0 && out.events.last() is Err && all_progress(
                out.events.drop_last(),
            )
            &&& !out.finished ==> all_progress(out.events)
        }),
{
    if chunk.error is None {
        let st1 = StreamStateView {
            response_id: match chunk.id {
                Some(id) => id,
                None => st.response_id,
            },
            usage: match chunk.usage {
                Some(u) => match usage_spec(u) {
                    Some(x) => Some(x),
                    None => st.usage,
                },
                None => st.usage,
            },
            ..st
        };
        if let Some(choice) = chunk.choice {
            let a = match choice.delta {
                Some(d) => delta_spec(st1, d),
                None => no_emission(st1),
            };
            if let Some(d) = choice.delta {
                lemma_delta_ok(st1, d);
            }
            lemma_tool_call_items_ok(a.state.calls, plan);
            lemma_all_progress_concat(a.events, flush_tool_calls_spec(a.state, plan).events);
            lemma_flush_chat_ok(StreamStateView { end_turn: Some(true), ..a.state }, plan);
            lemma_all_progress_concat(
                a.events,
                flush_chat_spec(StreamStateView { end_turn: Some(true), ..a.state }, plan).events,
            );
            assert(a.events.push(Err(StreamErrorView::ContextWindowExceeded)).drop_last() =~= a.events);
            assert(a.events.push(
                Err(StreamErrorView::Stream("response blocked by content filter"@)),
            ).drop_last() =~= a.events);
        }
    } else {
        let out = chunk_spec(st, chunk, plan);
        assert(out.events.drop_last() =~= Seq::<Emitted>::empty());
    }
}

/// The end of a stream reports no error, and its last event completes the response.
pub proof fn lemma_completion_ends_with_completed(
    st: StreamStateView,
    plan: Option<Seq<(Seq<char>, ToolNameView)>>,
)
    ensures
        complete_spec(st, plan).last() is Ok && complete_spec(st, plan).last()->Ok_0 is Completed,
        all_progress(complete_spec(st, plan).drop_last()),
{
    lemma_flush_chat_ok(st, plan);
    let f = flush_chat_spec(st, plan);
    let e = Ok(
        StreamEventView::Completed {
            response_id: f.state.response_id,
            token_usage: f.state.usage,
            end_turn: f.state.end_turn,
        },
    );
    assert(f.events.push(e).drop_last() =~= f.events);
}


/// The argument fragments that tool-call deltas carry, concatenated in order.
pub open spec fn delta_arguments(ds: Seq<ToolCallDeltaView>) -> Seq<char>
    decreases ds.len(),
{
    if ds.len() == 0 {
        seq![]
    } else {
        delta_arguments(ds.drop_last()) + match ds.last().function {
            Some(f) => match f.arguments {
                Some(a) => a,
                None => seq![],
            },
            None => seq![],
        }
    }
}

/// The first call id that the deltas give.
pub open spec fn first_delta_id(ds: Seq<ToolCallDeltaView>) -> Option<Seq<char>>
    decreases ds.len(),
{
    if ds.len() == 0 {
        None
    } else {
        match first_delta_id(ds.drop_last()) {
            Some(x) => Some(x),
            None => ds.last().id,
        }
    }
}

/// The first function name that the deltas give.
pub open spec fn first_delta_name(ds: Seq<ToolCallDeltaView>) -> Option<Seq<char>>
    decreases ds.len(),
{
    if ds.len() == 0 {
        None
    } else {
        match first_delta_name(ds.drop_last()) {
            Some(x) => Some(x),
            None => match ds.last().function {
                Some(f) => f.name,
                None => None,
            },
        }
    }
}

/// Every input of the event stream either continues it without reporting an error or
/// completing the response, or ends it with exactly one final event, an error or the
/// completed response, with neither before it.
pub proof fn lemma_inputs_end_with_error_or_completion(
    st: StreamStateView,
    input: SseInputView,
    plan: Option<Seq<(Seq<char>, ToolNameView)>>,
)
    ensures
        ({
            let out = input_spec(st, input, plan);
            &&& !out.finished ==> all_progress(out.events)
            &&& out.finished ==> out.events.len() > 0 && all_progress(out.events.drop_last()) && (
            out.events.last() is Err || (out.events.last() matches Ok(e) && e is Completed))
        }),
{
    let out = input_spec(st, input, plan);
    match input {
        SseInputView::Data { data, chunk } => {
            if is_done_spec(data) {
                lemma_completion_ends_with_completed(st, plan);
            } else if let Some(c) = chunk {
                lemma_errors_end_the_stream(st, c, plan);
            }
        },
        SseInputView::Ended => {
            lemma_completion_ends_with_completed(st, plan);
        },
        _ => {
            assert(out.events.drop_last() =~= Seq::<Emitted>::empty());
        },
    }
    if out.finished && out.events.last() is Ok {
        assert(all_progress(out.events.drop_last()));
    }
}

/// The response id and usage a state carries.
pub open spec fn same_meta(a: StreamStateView, b: StreamStateView) -> bool {
    a.response_id == b.response_id && a.usage == b.usage
}

proof fn lemma_flush_keeps_meta(st: StreamStateView, plan: Option<Seq<(Seq<char>, ToolNameView)>>)
    ensures
        same_meta(flush_chat_spec(st, plan).state, st),
        same_meta(flush_tool_calls_spec(st, plan).state, st),
{
}

proof fn lemma_tool_deltas_keep_meta(st: StreamStateView, ds: Seq<ToolCallDeltaView>)
    ensures
        same_meta(tool_deltas_spec(st, ds).state, st),
    decreases ds.len(),
{
    if ds.len() > 0 {
        lemma_tool_deltas_keep_meta(st, ds.drop_last());
    }
}

proof fn lemma_delta_keeps_meta(st: StreamStateView, d: DeltaFieldsView)
    ensures
        same_meta(delta_spec(st, d).state, st),
{
    let reasoning = match d.reasoning_content {
        Some(r) => r,
        None => d.reasoning,
    };
    let r1 = match reasoning {
        Some(r) => if r.len() > 0 {
            reasoning_delta_spec(st, r)
        } else {
            no_emission(st)
        },
        None => no_emission(st),
    };
    let c1 = match d.content {
        Some(c) => if c.len() > 0 {
            content_delta_spec(r1.state, c)
        } else {
            no_emission(r1.state)
        },
        None => no_emission(r1.state),
    };
    if let Some(ds) = d.tool_calls {
        lemma_tool_deltas_keep_meta(c1.state, ds);
    }
}

/// The response id a chunk leaves: its own when it has one.
pub open spec fn chunk_id(id: Seq<char>, chunk: ChatChunkView) -> Seq<char> {
    match chunk.id {
        Some(x) => x,
        None => id,
    }
}

/// The usage a chunk leaves: its own when it parses.
pub open spec fn chunk_usage(usage: Option<TokenUsage>, chunk: ChatChunkView) -> Option<TokenUsage> {
    match chunk.usage {
        Some(u) => match usage_spec(u) {
            Some(x) => Some(x),
            None => usage,
        },
        None => usage,
    }
}

proof fn lemma_chunk_meta(st: StreamStateView, c: ChatChunkView, plan: Option<Seq<(Seq<char>, ToolNameView)>>)
    requires
        c.error is None,
    ensures
        chunk_spec(st, c, plan).state.response_id == chunk_id(st.response_id, c),
        chunk_spec(st, c, plan).state.usage == chunk_usage(st.usage, c),
{
    let st1 = StreamStateView {
        response_id: chunk_id(st.response_id, c),
        usage: chunk_usage(st.usage, c),
        ..st
    };
    if let Some(choice) = c.choice {
        if let Some(d) = choice.delta {
            lemma_delta_keeps_meta(st1, d);
        }
        let a = match choice.delta {
            Some(d) => delta_spec(st1, d),
            None => no_emission(st1),
        };
        lemma_flush_keeps_meta(a.state, plan);
        lemma_flush_keeps_meta(StreamStateView { end_turn: Some(true), ..a.state }, plan);
    }
}

/// What a run of inputs emits, and the state it leaves.
pub struct StreamRun {
    pub state: StreamStateView,
    pub events: Seq<Emitted>,
    pub finished: bool,
}

/// Takes the inputs in order, sending every input's events, and stops at the first input
/// that finishes the stream: the loop that drives `ChatStreamState::on_input`.
pub open spec fn run_inputs(
    st: StreamStateView,
    inputs: Seq<SseInputView>,
    plan: Option<Seq<(Seq<char>, ToolNameView)>>,
) -> StreamRun
    decreases inputs.len(),
{
    if inputs.len() == 0 {
        StreamRun { state: st, events: seq![], finished: false }
    } else {
        let out = input_spec(st, inputs[0], plan);
        if out.finished {
            StreamRun { state: out.state, events: out.events, finished: true }
        } else {
            let rest = run_inputs(out.state, inputs.drop_first(), plan);
            StreamRun { state: rest.state, events: out.events + rest.events, finished: rest.finished }
        }
    }
}

/// The response id after the inputs that do not finish the stream: the last one a chunk
/// gave.
pub open spec fn last_response_id(id: Seq<char>, inputs: Seq<SseInputView>) -> Seq<char>
    decreases inputs.len(),
{
    if inputs.len() == 0 {
        id
    } else {
        match inputs[0] {
            SseInputView::Data { data, chunk } => if is_done_spec(data) {
                id
            } else {
                match chunk {
                    None => last_response_id(id, inputs.drop_first()),
                    Some(c) => if c.error is None {
                        last_response_id(chunk_id(id, c), inputs.drop_first())
                    } else {
                        id
                    },
                }
            },
            _ => id,
        }
    }
}

/// The usage after the inputs that do not finish the stream: the last one a chunk gave.
pub open spec fn last_usage(usage: Option<TokenUsage>, inputs: Seq<SseInputView>) -> Option<TokenUsage>
    decreases inputs.len(),
{
    if inputs.len() == 0 {
        usage
    } else {
        match inputs[0] {
            SseInputView::Data { data, chunk } => if is_done_spec(data) {
                usage
            } else {
                match chunk {
                    None => last_usage(usage, inputs.drop_first()),
                    Some(c) => if c.error is None {
                        last_usage(chunk_usage(usage, c), inputs.drop_first())
                    } else {
                        usage
                    },
                }
            },
            _ => usage,
        }
    }
}

/// A whole stream sends at most one final event, and it comes last: until the stream is
/// finished, every event carries the response along; a finished stream ends with exactly
/// one error or one completion. The completion carries the last response id and the last
/// usage that the chunks gave.
pub proof fn lemma_stream_ends_once(
    st: StreamStateView,
    inputs: Seq<SseInputView>,
    plan: Option<Seq<(Seq<char>, ToolNameView)>>,
)
    ensures
        ({
            let run = run_inputs(st, inputs, plan);
            &&& !run.finished ==> all_progress(run.events)
            &&& run.finished ==> run.events.len() > 0 && all_progress(run.events.drop_last()) && !is_progress(run.events.last())
            &&& run.finished ==> (run.events.last() matches Ok(StreamEventView::Completed { response_id, token_usage, .. })
                ==> response_id == last_response_id(st.response_id, inputs) && token_usage == last_usage(st.usage, inputs))
        }),
    decreases inputs.len(),
{
    if inputs.len() > 0 {
        let input = inputs[0];
        let out = input_spec(st, input, plan);
        lemma_inputs_end_with_error_or_completion(st, input, plan);
        if out.finished {
            match input {
                SseInputView::Data { data, chunk } => {
                    if is_done_spec(data) {
                        lemma_flush_keeps_meta(st, plan);
                    }
                },
                SseInputView::Ended => {
                    lemma_flush_keeps_meta(st, plan);
                },
                _ => {},
            }
        } else {
            let rest_inputs = inputs.drop_first();
            lemma_stream_ends_once(out.state, rest_inputs, plan);
            let rest = run_inputs(out.state, rest_inputs, plan);
            if !rest.finished {
                lemma_all_progress_concat(out.events, rest.events);
            } else {
                assert((out.events + rest.events).drop_last() =~= out.events + rest.events.drop_last());
                lemma_all_progress_concat(out.events, rest.events.drop_last());
                assert((out.events + rest.events).last() == rest.events.last());
            }
            match input {
                SseInputView::Data { data, chunk } => {
                    if let Some(c) = chunk {
                        lemma_chunk_meta(st, c, plan);
                    }
                },
                _ => {},
            }
        }
    }
}

/// An input that ends the stream normally: the end marker or the end of the bytes.
pub open spec fn is_end_input(input: SseInputView) -> bool {
    match input {
        SseInputView::Data { data, .. } => is_done_spec(data),
        SseInputView::Ended => true,
        _ => false,
    }
}

/// The position of the input that finishes the stream, or `-1` when none does.
pub open spec fn finishing_index(
    st: StreamStateView,
    inputs: Seq<SseInputView>,
    plan: Option<Seq<(Seq<char>, ToolNameView)>>,
) -> int
    decreases inputs.len(),
{
    if inputs.len() == 0 {
        -1
    } else {
        let out = input_spec(st, inputs[0], plan);
        if out.finished {
            0
        } else {
            let k = finishing_index(out.state, inputs.drop_first(), plan);
            if k < 0 {
                -1
            } else {
                k + 1
            }
        }
    }
}

/// Nothing is buffered: no reasoning, no assistant text and no pending tool call.
pub open spec fn nothing_buffered(st: StreamStateView) -> bool {
    &&& st.reasoning_text.len() == 0
    &&& st.assistant_text.len() == 0
    &&& st.calls.len() == 0
}

/// A stream completes exactly when it ends normally: it finishes at the first input that
/// ends it, and its last event is the completed response exactly when that input is the
/// end marker or the end of the bytes, and an error otherwise. When it completes, every
/// buffered reasoning item, assistant message and tool call has been sent before.
pub proof fn lemma_stream_completes_exactly_at_its_end(
    st: StreamStateView,
    inputs: Seq<SseInputView>,
    plan: Option<Seq<(Seq<char>, ToolNameView)>>,
)
    ensures
        ({
            let run = run_inputs(st, inputs, plan);
            let k = finishing_index(st, inputs, plan);
            &&& run.finished <==> 0 <= k < inputs.len()
            &&& run.finished ==> run.events.len() > 0
            &&& run.finished ==> (run.events.last() is Ok <==> is_end_input(inputs[k]))
            &&& run.finished ==> (run.events.last() is Ok ==> run.events.last()->Ok_0 is Completed)
            &&& (run.finished && is_end_input(inputs[k])) ==> nothing_buffered(run.state)
        }),
    decreases inputs.len(),
{
    if inputs.len() > 0 {
        let input = inputs[0];
        let out = input_spec(st, input, plan);
        lemma_inputs_end_with_error_or_completion(st, input, plan);
        if out.finished {
            if is_end_input(input) {
                lemma_completion_ends_with_completed(st, plan);
            } else {
                match input {
                    SseInputView::Data { data, chunk } => {
                        if let Some(c) = chunk {
                            lemma_errors_end_the_stream(st, c, plan);
                        }
                    },
                    _ => {},
                }
            }
        } else {
            let rest = inputs.drop_first();
            lemma_stream_completes_exactly_at_its_end(out.state, rest, plan);
            let r = run_inputs(out.state, rest, plan);
            let k = finishing_index(out.state, rest, plan);
            if r.finished {
                assert(inputs[k + 1] == rest[k]);
                assert((out.events + r.events).last() == r.events.last());
            }
        }
    }
}

/// Tool-call deltas addressed to one new index merge into one call, listed after the
/// calls already pending: its arguments are the deltas' fragments concatenated in order,
/// and its id and name are the first ones given.
pub proof fn lemma_tool_deltas_merge(st: StreamStateView, ds: Seq<ToolCallDeltaView>, index: nat)
    requires
        index <= usize::MAX,
        call_position(st.calls, index) is None,
        ds.len() > 0,
        forall|k: int| 0 <= k < ds.len() ==> #[trigger] ds[k].index == Some(index as u64),
    ensures
        ({
            let out = tool_deltas_spec(st, ds).state;
            let p = st.calls.len() as int;
            &&& out.calls.len() == st.calls.len() + 1
            &&& call_position(out.calls, index) == Some(p)
            &&& out.calls[p] == (
                index,
                ToolCallStateView {
                    id: first_delta_id(ds),
                    name: first_delta_name(ds),
                    arguments: delta_arguments(ds),
                },
            )
            &&& forall|j: int| 0 <= j < p ==> #[trigger] out.calls[j] == st.calls[j]
        }),
    decreases ds.len(),
{
    let d = ds.last();
    assert(ds[ds.len() - 1] == d);
    let prev = tool_deltas_spec(st, ds.drop_last());
    let p = st.calls.len() as int;
    if ds.len() == 1 {
        assert(ds.drop_last() =~= Seq::<ToolCallDeltaView>::empty());
        assert(prev.state == st);
        assert(delta_index(st, d) == index);
        let calls1 = st.calls.push((index, ToolCallStateView { id: None, name: None, arguments: seq![] }));
        let out = tool_delta_spec(st, d).state;
        assert(out.calls.last().0 == index);
        assert(out.calls.drop_last() =~= st.calls);
        assert(seq![] + match d.function {
            Some(f) => match f.arguments {
                Some(a) => a,
                None => seq![],
            },
            None => seq![],
        } =~= match d.function {
            Some(f) => match f.arguments {
                Some(a) => a,
                None => seq![],
            },
            None => seq![],
        });
    } else {
        assert forall|k: int| 0 <= k < ds.drop_last().len() implies #[trigger] ds.drop_last()[k].index
            == Some(index as u64) by {
            assert(ds.drop_last()[k] == ds[k]);
        }
        lemma_tool_deltas_merge(st, ds.drop_last(), index);
        let s1 = prev.state;
        assert(delta_index(s1, d) == index);
        assert(s1.calls.last().0 == index);
        let out = tool_delta_spec(s1, d).state;
        assert(out.calls.len() == s1.calls.len());
        assert(out.calls.last().0 == index);
        assert forall|j: int| 0 <= j < p implies #[trigger] out.calls[j] == st.calls[j] by {
            assert(out.calls[j] == s1.calls[j]);
        }
    }
}

} // verus!
