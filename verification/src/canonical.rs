//! The canonical request and events exchanged with a wire adapter.
use vstd::prelude::*;

use crate::protocol::{
    items_view, FunctionCallOutputPayload, ResponseItem, ResponseItemView, TokenUsage,
    ToolName, ToolNameView,
};
use crate::tool_spec::{specs_view, ToolSpec, ToolSpecView};

verus! {

/// Canonical tool selection for a request.
#[derive(Clone, Debug, PartialEq, Eq)]
pub enum CanonicalToolChoice {
    Auto,
    NoTools,
    Required,
    Function(ToolName),
}

pub enum CanonicalToolChoiceView {
    Auto,
    NoTools,
    Required,
    Function(ToolNameView),
}

impl View for CanonicalToolChoice {
    type V = CanonicalToolChoiceView;

    open spec fn view(&self) -> CanonicalToolChoiceView {
        match self {
            CanonicalToolChoice::Auto => CanonicalToolChoiceView::Auto,
            CanonicalToolChoice::NoTools => CanonicalToolChoiceView::NoTools,
            CanonicalToolChoice::Required => CanonicalToolChoiceView::Required,
            CanonicalToolChoice::Function(t) => CanonicalToolChoiceView::Function(t@),
        }
    }
}

/// Canonical request sent to a wire adapter. The provider metadata is a list of
/// (key, value) pairs; a lookup takes the first pair with the key.
#[derive(Clone, Debug, PartialEq, Eq)]
pub struct CanonicalRequest {
    pub model: String,
    pub instructions: String,
    pub items: Vec<ResponseItem>,
    pub tools: Vec<ToolSpec>,
    pub tool_choice: CanonicalToolChoice,
    pub parallel_tool_calls: bool,
    pub stream: bool,
    pub provider_metadata: Vec<(String, String)>,
}

pub struct CanonicalRequestView {
    pub model: Seq<char>,
    pub instructions: Seq<char>,
    pub items: Seq<ResponseItemView>,
    pub tools: Seq<ToolSpecView>,
    pub tool_choice: CanonicalToolChoiceView,
    pub parallel_tool_calls: bool,
    pub stream: bool,
    pub provider_metadata: Seq<(Seq<char>, Seq<char>)>,
}

pub open spec fn pairs_view(v: Seq<(String, String)>) -> Seq<(Seq<char>, Seq<char>)> {
    v.map_values(|p: (String, String)| (p.0@, p.1@))
}

impl View for CanonicalRequest {
    type V = CanonicalRequestView;

    open spec fn view(&self) -> CanonicalRequestView {
        CanonicalRequestView {
            model: self.model@,
            instructions: self.instructions@,
            items: items_view(self.items@),
            tools: specs_view(self.tools@),
            tool_choice: self.tool_choice@,
            parallel_tool_calls: self.parallel_tool_calls,
            stream: self.stream,
            provider_metadata: pairs_view(self.provider_metadata@),
        }
    }
}

/// Canonical conversation item at the wire boundary.
#[derive(Clone, Debug, PartialEq, Eq)]
pub enum CanonicalItem {
    Item(ResponseItem),
    ToolCall(CanonicalToolCall),
    ToolResult(CanonicalToolResult),
}

/// Canonical function or custom tool call.
#[derive(Clone, Debug, PartialEq, Eq)]
pub struct CanonicalToolCall {
    pub call_id: String,
    pub name: ToolName,
    pub arguments: String,
}

/// Canonical tool result associated with a call.
#[derive(Clone, Debug, PartialEq, Eq)]
pub struct CanonicalToolResult {
    pub call_id: String,
    pub name: Option<ToolName>,
    pub output: FunctionCallOutputPayload,
}

/// Canonical streaming event emitted by a wire adapter.
#[derive(Clone, Debug, PartialEq, Eq)]
pub enum CanonicalEvent {
    TextDelta(String),
    ReasoningDelta(String),
    ToolCallStarted { call_id: String, name: ToolName },
    ToolCallArgumentsDelta { call_id: String, delta: String },
    ToolCallCompleted(CanonicalToolCall),
    Usage(TokenUsage),
    Completed { response_id: String, end_turn: Option<bool> },
    Error(String),
}

} // verus!
