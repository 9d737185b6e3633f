//! Translation of a canonical, function-only request into the body of a Chat
//! Completions request. The body is a typed value; rendering it as JSON is left to the
//! caller (a part marked `Content` or `Output` is rendered as that item itself).
use vstd::prelude::*;

use crate::canonical::{CanonicalRequest, CanonicalRequestView, CanonicalToolChoice, CanonicalToolChoiceView};
use crate::protocol::{
    opt_view, ContentItem, ContentItemView, FunctionCallOutputPayload,
    FunctionCallOutputPayloadView, ImageReference, ImageReferenceView, OutputBody, OutputBodyView,
    OutputContentItem, OutputContentItemView, ReasoningContent, ReasoningContentView,
    ResponseItem, ResponseItemView, ToolName, ToolNameView,
};
use crate::text::str_eq;
use crate::tool_plan::FLAT_TOOL_NAME_SEPARATOR;
use crate::tool_spec::{ToolSpec, ToolSpecView};

verus! {

/// Error produced while translating a canonical request to Chat Completions.
#[derive(Clone, Debug, PartialEq, Eq)]
pub enum ChatWireError {
    UnsupportedTool(String),
}

pub enum ChatWireErrorView {
    UnsupportedTool(Seq<char>),
}

impl View for ChatWireError {
    type V = ChatWireErrorView;

    open spec fn view(&self) -> ChatWireErrorView {
        match self {
            ChatWireError::UnsupportedTool(name) => ChatWireErrorView::UnsupportedTool(name@),
        }
    }
}

impl ChatWireErrorView {
    pub open spec fn message_text(self) -> Seq<char> {
        match self {
            ChatWireErrorView::UnsupportedTool(name) =>
                "Chat Completions is function-only and cannot encode tool `"@ + name + "`"@,
        }
    }
}

impl ChatWireError {
    /// The description of the failure.
    pub fn message(&self) -> (message: String)
        ensures
            message@ == self@.message_text(),
    {
        match self {
            ChatWireError::UnsupportedTool(name) => {
                let mut message = String::from_str(
                    "Chat Completions is function-only and cannot encode tool `",
                );
                message.append(name.as_str());
                message.append("`");
                message
            },
        }
    }
}

/// One part of a structured message content.
#[derive(Clone, Debug, PartialEq, Eq)]
pub enum ChatPart {
    /// `{"type": "text", "text": ..}`
    Text(String),
    /// `{"type": "image_url", "image_url": {"url": ..}}`
    ImageUrl(String),
    /// A message content item rendered as itself.
    Content(ContentItem),
    /// A tool output item rendered as itself.
    Output(OutputContentItem),
}

pub enum ChatPartView {
    Text(Seq<char>),
    ImageUrl(Seq<char>),
    Content(ContentItemView),
    Output(OutputContentItemView),
}

impl View for ChatPart {
    type V = ChatPartView;

    open spec fn view(&self) -> ChatPartView {
        match self {
            ChatPart::Text(t) => ChatPartView::Text(t@),
            ChatPart::ImageUrl(u) => ChatPartView::ImageUrl(u@),
            ChatPart::Content(c) => ChatPartView::Content(c@),
            ChatPart::Output(o) => ChatPartView::Output(o@),
        }
    }
}

/// The content of a message: `null`, a string, or an array of parts.
#[derive(Clone, Debug, PartialEq, Eq)]
pub enum ChatContent {
    Null,
    Text(String),
    Parts(Vec<ChatPart>),
}

pub enum ChatContentView {
    Null,
    Text(Seq<char>),
    Parts(Seq<ChatPartView>),
}

pub open spec fn parts_view(v: Seq<ChatPart>) -> Seq<ChatPartView> {
    v.map_values(|p: ChatPart| p@)
}

impl View for ChatContent {
    type V = ChatContentView;

    open spec fn view(&self) -> ChatContentView {
        match self {
            ChatContent::Null => ChatContentView::Null,
            ChatContent::Text(t) => ChatContentView::Text(t@),
            ChatContent::Parts(p) => ChatContentView::Parts(parts_view(p@)),
        }
    }
}

/// A tool call of an assistant message (`"type": "function"`).
#[derive(Clone, Debug, PartialEq, Eq)]
pub struct ChatToolCall {
    pub id: String,
    pub name: String,
    pub arguments: String,
}

pub struct ChatToolCallView {
    pub id: Seq<char>,
    pub name: Seq<char>,
    pub arguments: Seq<char>,
}

impl View for ChatToolCall {
    type V = ChatToolCallView;

    open spec fn view(&self) -> ChatToolCallView {
        ChatToolCallView { id: self.id@, name: self.name@, arguments: self.arguments@ }
    }
}

pub open spec fn calls_view(v: Seq<ChatToolCall>) -> Seq<ChatToolCallView> {
    v.map_values(|c: ChatToolCall| c@)
}

/// One message of the request. Absent optional fields are left out of the JSON.
#[derive(Clone, Debug, PartialEq, Eq)]
pub struct ChatMessage {
    pub role: String,
    pub content: ChatContent,
    pub tool_call_id: Option<String>,
    pub tool_calls: Option<Vec<ChatToolCall>>,
    pub reasoning: Option<String>,
}

pub struct ChatMessageView {
    pub role: Seq<char>,
    pub content: ChatContentView,
    pub tool_call_id: Option<Seq<char>>,
    pub tool_calls: Option<Seq<ChatToolCallView>>,
    pub reasoning: Option<Seq<char>>,
}

impl View for ChatMessage {
    type V = ChatMessageView;

    open spec fn view(&self) -> ChatMessageView {
        ChatMessageView {
            role: self.role@,
            content: self.content@,
            tool_call_id: opt_view(self.tool_call_id),
            tool_calls: match self.tool_calls {
                Some(c) => Some(calls_view(c@)),
                None => None,
            },
            reasoning: opt_view(self.reasoning),
        }
    }
}

pub open spec fn messages_view(v: Seq<ChatMessage>) -> Seq<ChatMessageView> {
    v.map_values(|m: ChatMessage| m@)
}

/// A function tool offered to the model (`"type": "function"`).
#[derive(Clone, Debug, PartialEq, Eq)]
pub struct ChatTool {
    pub name: String,
    pub description: String,
    /// The JSON schema of the arguments, as JSON text.
    pub parameters: String,
}

pub struct ChatToolView {
    pub name: Seq<char>,
    pub description: Seq<char>,
    pub parameters: Seq<char>,
}

impl View for ChatTool {
    type V = ChatToolView;

    open spec fn view(&self) -> ChatToolView {
        ChatToolView {
            name: self.name@,
            description: self.description@,
            parameters: self.parameters@,
        }
    }
}

/// `"auto"`, `"none"`, `"required"`, or a named function.
#[derive(Clone, Debug, PartialEq, Eq)]
pub enum ChatToolChoice {
    Auto,
    NoTools,
    Required,
    Function(String),
}

pub enum ChatToolChoiceView {
    Auto,
    NoTools,
    Required,
    Function(Seq<char>),
}

impl View for ChatToolChoice {
    type V = ChatToolChoiceView;

    open spec fn view(&self) -> ChatToolChoiceView {
        match self {
            ChatToolChoice::Auto => ChatToolChoiceView::Auto,
            ChatToolChoice::NoTools => ChatToolChoiceView::NoTools,
            ChatToolChoice::Required => ChatToolChoiceView::Required,
            ChatToolChoice::Function(n) => ChatToolChoiceView::Function(n@),
        }
    }
}

/// The body of a Chat Completions request; `stream_options` always asks for usage.
#[derive(Clone, Debug, PartialEq, Eq)]
pub struct ChatRequestBody {
    pub model: String,
    pub messages: Vec<ChatMessage>,
    pub tools: Vec<ChatTool>,
    pub tool_choice: ChatToolChoice,
    pub parallel_tool_calls: bool,
    pub stream: bool,
    /// The conversation id, sent as `user` when the provider metadata has one.
    pub user: Option<String>,
}

pub struct ChatRequestBodyView {
    pub model: Seq<char>,
    pub messages: Seq<ChatMessageView>,
    pub tools: Seq<ChatToolView>,
    pub tool_choice: ChatToolChoiceView,
    pub parallel_tool_calls: bool,
    pub stream: bool,
    pub user: Option<Seq<char>>,
}

impl View for ChatRequestBody {
    type V = ChatRequestBodyView;

    open spec fn view(&self) -> ChatRequestBodyView {
        ChatRequestBodyView {
            model: self.model@,
            messages: messages_view(self.messages@),
            tools: self.tools@.map_values(|t: ChatTool| t@),
            tool_choice: self.tool_choice@,
            parallel_tool_calls: self.parallel_tool_calls,
            stream: self.stream,
            user: opt_view(self.user),
        }
    }
}

/// The text parts of a message content, concatenated.
pub open spec fn message_text_of(content: Seq<ContentItemView>) -> Seq<char>
    decreases content.len(),
{
    if content.len() == 0 {
        seq![]
    } else {
        message_text_of(content.drop_last()) + match content.last() {
            ContentItemView::InputText { text } => text,
            ContentItemView::OutputText { text } => text,
            _ => seq![],
        }
    }
}

pub open spec fn is_non_text(item: ContentItemView) -> bool {
    item is InputImage || item is InputAudio
}

pub open spec fn has_non_text(content: Seq<ContentItemView>) -> bool {
    exists|i: int| 0 <= i < content.len() && is_non_text(#[trigger] content[i])
}

/// A message content item as a Chat part.
pub open spec fn content_part(item: ContentItemView) -> ChatPartView {
    match item {
        ContentItemView::InputText { text } => ChatPartView::Text(text),
        ContentItemView::OutputText { text } => ChatPartView::Text(text),
        ContentItemView::InputImage { image: ImageReferenceView::Inline { image_url }, .. } =>
            ChatPartView::ImageUrl(image_url),
        _ => ChatPartView::Content(item),
    }
}

/// The content of a message: its text for the assistant or when it is only text, else
/// its parts.
pub open spec fn message_content_of(
    role: Seq<char>,
    content: Seq<ContentItemView>,
    text: Seq<char>,
) -> ChatContentView {
    if role == "assistant"@ || !has_non_text(content) {
        ChatContentView::Text(text)
    } else {
        ChatContentView::Parts(content.map_values(|c: ContentItemView| content_part(c)))
    }
}

/// A tool output item as a Chat part.
pub open spec fn output_part(item: OutputContentItemView) -> ChatPartView {
    match item {
        OutputContentItemView::InputText { text } => ChatPartView::Text(text),
        OutputContentItemView::InputImage { image: ImageReferenceView::Inline { image_url }, .. } =>
            ChatPartView::ImageUrl(image_url),
        _ => ChatPartView::Output(item),
    }
}

/// The content of a tool message: the output's parts, or its text.
pub open spec fn tool_output_content(output: FunctionCallOutputPayloadView) -> ChatContentView {
    match output.body {
        OutputBodyView::ContentItems(items) => ChatContentView::Parts(
            items.map_values(|i: OutputContentItemView| output_part(i)),
        ),
        OutputBodyView::Text(t) => ChatContentView::Text(t),
    }
}

/// The text of a reasoning item, concatenated.
pub open spec fn reasoning_text_of(content: Seq<ReasoningContentView>) -> Seq<char>
    decreases content.len(),
{
    if content.len() == 0 {
        seq![]
    } else {
        reasoning_text_of(content.drop_last()) + match content.last() {
            ReasoningContentView::ReasoningText { text } => text,
            ReasoningContentView::Text { text } => text,
        }
    }
}

/// The function name a tool identity has on the Chat wire.
pub open spec fn chat_tool_name(t: ToolNameView) -> Seq<char> {
    if t.is_default_namespace() {
        t.name
    } else {
        match t.namespace {
            Some(ns) => ns + FLAT_TOOL_NAME_SEPARATOR@ + t.name,
            None => t.name,
        }
    }
}

/// The messages built so far, and the text of the last assistant message.
pub struct ChatState {
    pub messages: Seq<ChatMessageView>,
    pub last_assistant_text: Option<Seq<char>>,
}

/// Adds a tool call to the last message when it is the assistant's, else in a new
/// assistant message without content.
pub open spec fn push_tool_call_spec(msgs: Seq<ChatMessageView>, call: ChatToolCallView) -> Seq<
    ChatMessageView,
> {
    if msgs.len() > 0 && msgs.last().role == "assistant"@ {
        let last = msgs.last();
        msgs.drop_last().push(
            ChatMessageView {
                role: last.role,
                content: last.content,
                tool_call_id: last.tool_call_id,
                tool_calls: Some(
                    match last.tool_calls {
                        Some(c) => c.push(call),
                        None => seq![call],
                    },
                ),
                reasoning: last.reasoning,
            },
        )
    } else {
        msgs.push(
            ChatMessageView {
                role: "assistant"@,
                content: ChatContentView::Null,
                tool_call_id: None,
                tool_calls: Some(seq![call]),
                reasoning: None,
            },
        )
    }
}

/// Attaches reasoning to the last message when it is the assistant's.
pub open spec fn attach_reasoning_spec(msgs: Seq<ChatMessageView>, reasoning: Seq<char>) -> Seq<
    ChatMessageView,
> {
    if msgs.len() > 0 && msgs.last().role == "assistant"@ {
        let last = msgs.last();
        msgs.drop_last().push(
            ChatMessageView {
                role: last.role,
                content: last.content,
                tool_call_id: last.tool_call_id,
                tool_calls: last.tool_calls,
                reasoning: Some(reasoning),
            },
        )
    } else {
        msgs
    }
}

/// The effect of one history item on the messages.
pub open spec fn chat_step(st: ChatState, item: ResponseItemView) -> ChatState {
    match item {
        ResponseItemView::Message { role, content, .. } => {
            let text = message_text_of(content);
            if role == "assistant"@ && st.last_assistant_text == Some(text) {
                st
            } else {
                ChatState {
                    messages: st.messages.push(
                        ChatMessageView {
                            role,
                            content: message_content_of(role, content, text),
                            tool_call_id: None,
                            tool_calls: None,
                            reasoning: None,
                        },
                    ),
                    last_assistant_text: if role == "assistant"@ {
                        Some(text)
                    } else {
                        st.last_assistant_text
                    },
                }
            }
        },
        ResponseItemView::FunctionCall { name, namespace, arguments, call_id, .. } => ChatState {
            messages: push_tool_call_spec(
                st.messages,
                ChatToolCallView {
                    id: call_id,
                    name: chat_tool_name(ToolNameView { name, namespace }),
                    arguments,
                },
            ),
            last_assistant_text: st.last_assistant_text,
        },
        ResponseItemView::FunctionCallOutput { call_id, output, .. } => ChatState {
            messages: st.messages.push(
                ChatMessageView {
                    role: "tool"@,
                    content: tool_output_content(output),
                    tool_call_id: Some(
                        match call_id {
                            Some(c) => c,
                            None => seq![],
                        },
                    ),
                    tool_calls: None,
                    reasoning: None,
                },
            ),
            last_assistant_text: st.last_assistant_text,
        },
        ResponseItemView::Reasoning { content: Some(c), .. } => if reasoning_text_of(c).len() > 0 {
            ChatState {
                messages: attach_reasoning_spec(st.messages, reasoning_text_of(c)),
                last_assistant_text: st.last_assistant_text,
            }
        } else {
            st
        },
        _ => st,
    }
}

/// The state after the items, in order.
pub open spec fn chat_fold(st: ChatState, items: Seq<ResponseItemView>) -> ChatState
    decreases items.len(),
{
    if items.len() == 0 {
        st
    } else {
        chat_step(chat_fold(st, items.drop_last()), items.last())
    }
}

/// The messages of a request: its instructions as a system message when there are any,
/// then the history.
pub open spec fn chat_messages(request: CanonicalRequestView) -> Seq<ChatMessageView> {
    let start = if request.instructions.len() > 0 {
        seq![
            ChatMessageView {
                role: "system"@,
                content: ChatContentView::Text(request.instructions),
                tool_call_id: None,
                tool_calls: None,
                reasoning: None,
            },
        ]
    } else {
        seq![]
    };
    chat_fold(ChatState { messages: start, last_assistant_text: None }, request.items).messages
}

/// The first tool that is not a function, if any.
pub open spec fn first_unsupported(tools: Seq<ToolSpecView>) -> Option<ToolSpecView>
    decreases tools.len(),
{
    if tools.len() == 0 {
        None
    } else if !(tools[0] is Function) {
        Some(tools[0])
    } else {
        first_unsupported(tools.drop_first())
    }
}

pub open spec fn chat_tool_spec(tool: ToolSpecView) -> ChatToolView {
    match tool {
        ToolSpecView::Function(t) => ChatToolView {
            name: t.name,
            description: t.description,
            parameters: t.parameters,
        },
        _ => ChatToolView { name: tool.name(), description: seq![], parameters: seq![] },
    }
}

pub open spec fn tool_choice_spec(choice: CanonicalToolChoiceView) -> ChatToolChoiceView {
    match choice {
        CanonicalToolChoiceView::Auto => ChatToolChoiceView::Auto,
        CanonicalToolChoiceView::NoTools => ChatToolChoiceView::NoTools,
        CanonicalToolChoiceView::Required => ChatToolChoiceView::Required,
        CanonicalToolChoiceView::Function(t) => ChatToolChoiceView::Function(chat_tool_name(t)),
    }
}

/// The value of the first metadata pair with `key`.
pub open spec fn metadata_get(pairs: Seq<(Seq<char>, Seq<char>)>, key: Seq<char>) -> Option<Seq<char>>
    decreases pairs.len(),
{
    if pairs.len() == 0 {
        None
    } else if pairs[0].0 == key {
        Some(pairs[0].1)
    } else {
        metadata_get(pairs.drop_first(), key)
    }
}

/// The Chat Completions body of a request, or the first tool it cannot encode.
pub open spec fn chat_request_spec(request: CanonicalRequestView) -> Result<ChatRequestBodyView, ChatWireErrorView> {
    match first_unsupported(request.tools) {
        Some(t) => Err(ChatWireErrorView::UnsupportedTool(t.name())),
        None => Ok(
            ChatRequestBodyView {
                model: request.model,
                messages: chat_messages(request),
                tools: request.tools.map_values(|t: ToolSpecView| chat_tool_spec(t)),
                tool_choice: tool_choice_spec(request.tool_choice),
                parallel_tool_calls: request.parallel_tool_calls,
                stream: request.stream,
                user: metadata_get(request.provider_metadata, "conversation_id"@),
            },
        ),
    }
}


/// The text parts of a message content, concatenated.
fn message_text(content: &[ContentItem]) -> (text: String)
    ensures
        text@ == message_text_of(crate::protocol::contents_view(content@)),
{
    let ghost cv = crate::protocol::contents_view(content@);
    let mut text = String::new();
    let mut i: usize = 0;
    assert(cv.take(0) =~= Seq::<ContentItemView>::empty());
    while i < content.len()
        invariant
            cv == crate::protocol::contents_view(content@),
            i <= content@.len(),
            text@ == message_text_of(cv.take(i as int)),
        decreases content@.len() - i,
    {
        assert(cv.take(i + 1).drop_last() =~= cv.take(i as int));
        assert(cv.take(i + 1).last() == content@[i as int]@);
        match &content[i] {
            ContentItem::InputText { text: part } | ContentItem::OutputText { text: part } => {
                text.append(part.as_str());
            },
            _ => {
                assert(text@ + seq![] =~= text@);
            },
        }
        i = i + 1;
    }
    assert(cv.take(content@.len() as int) =~= cv);
    text
}

/// A message content item as a Chat part.
fn content_item_value(item: &ContentItem) -> (part: ChatPart)
    ensures
        part@ == content_part(item@),
{
    match item {
        ContentItem::InputText { text } | ContentItem::OutputText { text } => ChatPart::Text(
            text.clone(),
        ),
        ContentItem::InputImage { image: ImageReference::Inline { image_url }, .. } =>
            ChatPart::ImageUrl(image_url.clone()),
        _ => ChatPart::Content(item.duplicate()),
    }
}

/// The content of a message: its text for the assistant or when it is only text, else
/// its parts.
fn message_content(role: &str, content: &[ContentItem], text: String) -> (c: ChatContent)
    ensures
        c@ == message_content_of(role@, crate::protocol::contents_view(content@), text@),
{
    let ghost cv = crate::protocol::contents_view(content@);
    if str_eq(role, "assistant") {
        return ChatContent::Text(text);
    }
    let mut has_non_text = false;
    let mut i: usize = 0;
    while i < content.len()
        invariant
            cv == crate::protocol::contents_view(content@),
            i <= content@.len(),
            has_non_text == exists|j: int| 0 <= j < i && is_non_text(#[trigger] cv[j]),
        decreases content@.len() - i,
    {
        match &content[i] {
            ContentItem::InputImage { .. } | ContentItem::InputAudio { .. } => {
                assert(is_non_text(cv[i as int]));
                has_non_text = true;
            },
            _ => {},
        }
        i = i + 1;
    }
    if !has_non_text {
        return ChatContent::Text(text);
    }
    let mut parts: Vec<ChatPart> = Vec::new();
    let mut k: usize = 0;
    while k < content.len()
        invariant
            cv == crate::protocol::contents_view(content@),
            k <= content@.len(),
            parts@.len() == k,
            parts_view(parts@) == cv.take(k as int).map_values(|c: ContentItemView| content_part(c)),
        decreases content@.len() - k,
    {
        let part = content_item_value(&content[k]);
        assert(cv[k as int] == content@[k as int]@);
        let ghost before = parts@;
        parts.push(part);
        proof {
            assert forall|j: int| 0 <= j <= k implies #[trigger] parts_view(parts@)[j] == content_part(cv[j]) by {
                if j < k {
                    assert(parts@[j] == before[j]);
                    assert(parts_view(before)[j] == cv.take(k as int).map_values(
                        |c: ContentItemView| content_part(c),
                    )[j]);
                }
            }
        }
        k = k + 1;
        assert(parts_view(parts@) =~= cv.take(k as int).map_values(
            |c: ContentItemView| content_part(c),
        ));
    }
    assert(cv.take(content@.len() as int) =~= cv);
    ChatContent::Parts(parts)
}

/// The text of a reasoning item, or nothing when it is empty.
fn reasoning_text(content: &[ReasoningContent]) -> (text: Option<String>)
    ensures
        match text {
            Some(t) => t@ == reasoning_text_of(content@.map_values(|r: ReasoningContent| r@))
                && t@.len() > 0,
            None => reasoning_text_of(content@.map_values(|r: ReasoningContent| r@)).len() == 0,
        },
{
    let ghost cv = content@.map_values(|r: ReasoningContent| r@);
    let mut text = String::new();
    let mut i: usize = 0;
    assert(cv.take(0) =~= Seq::<ReasoningContentView>::empty());
    while i < content.len()
        invariant
            cv == content@.map_values(|r: ReasoningContent| r@),
            i <= content@.len(),
            text@ == reasoning_text_of(cv.take(i as int)),
        decreases content@.len() - i,
    {
        assert(cv.take(i + 1).drop_last() =~= cv.take(i as int));
        assert(cv.take(i + 1).last() == content@[i as int]@);
        match &content[i] {
            ReasoningContent::ReasoningText { text: part } | ReasoningContent::Text {
                text: part,
            } => {
                text.append(part.as_str());
            },
        }
        i = i + 1;
    }
    assert(cv.take(content@.len() as int) =~= cv);
    if text.as_str().is_empty() {
        None
    } else {
        Some(text)
    }
}

/// A tool output item as a Chat part.
fn tool_output_item_value(item: &OutputContentItem) -> (part: ChatPart)
    ensures
        part@ == output_part(item@),
{
    match item {
        OutputContentItem::InputText { text } => ChatPart::Text(text.clone()),
        OutputContentItem::InputImage { image: ImageReference::Inline { image_url }, .. } =>
            ChatPart::ImageUrl(image_url.clone()),
        _ => ChatPart::Output(item.duplicate()),
    }
}

/// The content of a tool message: the output's parts, or its text.
fn tool_output_content_value(output: &FunctionCallOutputPayload) -> (c: ChatContent)
    ensures
        c@ == tool_output_content(output@),
{
    match &output.body {
        OutputBody::ContentItems(items) => {
            let ghost iv = items@.map_values(|i: OutputContentItem| i@);
            let mut parts: Vec<ChatPart> = Vec::new();
            let mut k: usize = 0;
            while k < items.len()
                invariant
                    iv == items@.map_values(|i: OutputContentItem| i@),
                    k <= items@.len(),
                    parts@.len() == k,
                    parts_view(parts@) == iv.take(k as int).map_values(
                        |i: OutputContentItemView| output_part(i),
                    ),
                decreases items@.len() - k,
            {
                let part = tool_output_item_value(&items[k]);
                assert(iv[k as int] == items@[k as int]@);
                let ghost before = parts@;
                parts.push(part);
                proof {
                    assert forall|j: int| 0 <= j <= k implies #[trigger] parts_view(parts@)[j]
                        == output_part(iv[j]) by {
                        if j < k {
                            assert(parts@[j] == before[j]);
                            assert(parts_view(before)[j] == iv.take(k as int).map_values(
                                |i: OutputContentItemView| output_part(i),
                            )[j]);
                        }
                    }
                }
                k = k + 1;
                assert(parts_view(parts@) =~= iv.take(k as int).map_values(
                    |i: OutputContentItemView| output_part(i),
                ));
            }
            assert(iv.take(items@.len() as int) =~= iv);
            ChatContent::Parts(parts)
        },
        OutputBody::Text(text) => ChatContent::Text(text.clone()),
    }
}

/// The function name a tool identity has on the Chat wire.
fn encode_tool_name(name: &ToolName) -> (wire_name: String)
    ensures
        wire_name@ == chat_tool_name(name@),
{
    if name.is_default_namespace() {
        name.name.clone()
    } else {
        let mut wire_name = match &name.namespace {
            Some(ns) => ns.clone(),
            None => String::new(),
        };
        wire_name.append(FLAT_TOOL_NAME_SEPARATOR);
        wire_name.append(name.name.as_str());
        wire_name
    }
}

/// Adds a tool call to the last message when it is the assistant's, else in a new
/// assistant message without content.
fn push_tool_call_message(messages: &mut Vec<ChatMessage>, tool_call: ChatToolCall)
    ensures
        messages_view(final(messages)@) == push_tool_call_spec(
            messages_view(old(messages)@),
            tool_call@,
        ),
{
    let ghost mv = messages_view(messages@);
    if messages.len() > 0 && str_eq(messages[messages.len() - 1].role.as_str(), "assistant") {
        let last = messages.pop().unwrap();
        assert(messages_view(messages@) =~= mv.drop_last());
        let calls = match last.tool_calls {
            Some(mut calls) => {
                let ghost before = calls@;
                calls.push(tool_call);
                assert(calls_view(calls@) =~= calls_view(before).push(tool_call@));
                calls
            },
            None => {
                let mut calls: Vec<ChatToolCall> = Vec::new();
                calls.push(tool_call);
                assert(calls_view(calls@) =~= seq![tool_call@]);
                calls
            },
        };
        messages.push(
            ChatMessage {
                role: last.role,
                content: last.content,
                tool_call_id: last.tool_call_id,
                tool_calls: Some(calls),
                reasoning: last.reasoning,
            },
        );
        assert(messages_view(messages@) =~= push_tool_call_spec(mv, tool_call@));
        return ;
    }
    let mut calls: Vec<ChatToolCall> = Vec::new();
    calls.push(tool_call);
    assert(calls_view(calls@) =~= seq![tool_call@]);
    messages.push(
        ChatMessage {
            role: String::from_str("assistant"),
            content: ChatContent::Null,
            tool_call_id: None,
            tool_calls: Some(calls),
            reasoning: None,
        },
    );
    assert(messages_view(messages@) =~= push_tool_call_spec(mv, tool_call@));
}

/// Attaches reasoning to the last message when it is the assistant's.
fn attach_reasoning(messages: &mut Vec<ChatMessage>, reasoning: String)
    ensures
        messages_view(final(messages)@) == attach_reasoning_spec(
            messages_view(old(messages)@),
            reasoning@,
        ),
{
    let ghost mv = messages_view(messages@);
    if messages.len() > 0 && str_eq(messages[messages.len() - 1].role.as_str(), "assistant") {
        let last = messages.pop().unwrap();
        assert(messages_view(messages@) =~= mv.drop_last());
        messages.push(
            ChatMessage {
                role: last.role,
                content: last.content,
                tool_call_id: last.tool_call_id,
                tool_calls: last.tool_calls,
                reasoning: Some(reasoning),
            },
        );
        assert(messages_view(messages@) =~= attach_reasoning_spec(mv, reasoning@));
    }
}

/// The Chat tool selection for a canonical one.
fn tool_choice(choice: &CanonicalToolChoice) -> (c: ChatToolChoice)
    ensures
        c@ == tool_choice_spec(choice@),
{
    match choice {
        CanonicalToolChoice::Auto => ChatToolChoice::Auto,
        CanonicalToolChoice::NoTools => ChatToolChoice::NoTools,
        CanonicalToolChoice::Required => ChatToolChoice::Required,
        CanonicalToolChoice::Function(name) => ChatToolChoice::Function(encode_tool_name(name)),
    }
}

/// A function tool as a Chat tool; any other kind cannot be encoded.
fn chat_tool(tool: &ToolSpec) -> (r: Result<ChatTool, ChatWireError>)
    ensures
        match r {
            Ok(t) => tool@ is Function && t@ == chat_tool_spec(tool@),
            Err(e) => !(tool@ is Function) && e@ == ChatWireErrorView::UnsupportedTool(tool@.name()),
        },
{
    match tool {
        ToolSpec::Function(t) => Ok(
            ChatTool {
                name: t.name.clone(),
                description: t.description.clone(),
                parameters: t.parameters.clone(),
            },
        ),
        _ => Err(ChatWireError::UnsupportedTool(tool.name())),
    }
}

/// Converts a canonical function-only request into a Chat Completions body.
pub fn build_chat_request(request: &CanonicalRequest) -> (result: Result<
    ChatRequestBody,
    ChatWireError,
>)
    ensures
        match chat_request_spec(request@) {
            Ok(body) => result matches Ok(b) && b@ == body,
            Err(e) => result matches Err(x) && x@ == e,
        },
{
    let ghost rv = request@;
    let mut messages: Vec<ChatMessage> = Vec::new();
    if !request.instructions.as_str().is_empty() {
        messages.push(
            ChatMessage {
                role: String::from_str("system"),
                content: ChatContent::Text(request.instructions.clone()),
                tool_call_id: None,
                tool_calls: None,
                reasoning: None,
            },
        );
    }
    let ghost start = messages_view(messages@);
    proof {
        if rv.instructions.len() > 0 {
            assert(start =~= seq![
                ChatMessageView {
                    role: "system"@,
                    content: ChatContentView::Text(rv.instructions),
                    tool_call_id: None,
                    tool_calls: None,
                    reasoning: None,
                },
            ]);
        } else {
            assert(start =~= Seq::<ChatMessageView>::empty());
        }
    }
    let ghost init = ChatState { messages: start, last_assistant_text: None };
    let ghost iv = rv.items;
    let mut last_assistant_text: Option<String> = None;
    let mut i: usize = 0;
    assert(iv.take(0) =~= Seq::<ResponseItemView>::empty());
    while i < request.items.len()
        invariant
            rv == request@,
            iv == rv.items,
            i <= request.items@.len(),
            ({
                let st = chat_fold(init, iv.take(i as int));
                &&& messages_view(messages@) == st.messages
                &&& opt_view(last_assistant_text) == st.last_assistant_text
            }),
        decreases request.items@.len() - i,
    {
        assert(iv.take(i + 1).drop_last() =~= iv.take(i as int));
        assert(iv.take(i + 1).last() == request.items@[i as int]@);
        match &request.items[i] {
            ResponseItem::Message { role, content, .. } => {
                let text = message_text(content.as_slice());
                let is_assistant = str_eq(role.as_str(), "assistant");
                let repeated = match &last_assistant_text {
                    Some(last) => is_assistant && str_eq(last.as_str(), text.as_str()),
                    None => false,
                };
                if !repeated {
                    if is_assistant {
                        last_assistant_text = Some(text.clone());
                    }
                    let ghost before = messages_view(messages@);
                    let message_content = message_content(role.as_str(), content.as_slice(), text);
                    messages.push(
                        ChatMessage {
                            role: role.clone(),
                            content: message_content,
                            tool_call_id: None,
                            tool_calls: None,
                            reasoning: None,
                        },
                    );
                    assert(messages_view(messages@) =~= before.push(messages@.last()@));
                }
            },
            ResponseItem::FunctionCall { name, namespace, arguments, call_id, .. } => {
                let tool_name = ToolName {
                    name: name.clone(),
                    namespace: crate::protocol::copy_opt(namespace),
                };
                let wire_name = encode_tool_name(&tool_name);
                push_tool_call_message(
                    &mut messages,
                    ChatToolCall { id: call_id.clone(), name: wire_name, arguments: arguments.clone() },
                );
            },
            ResponseItem::FunctionCallOutput { call_id, output, .. } => {
                let tool_call_id = match call_id {
                    Some(c) => c.clone(),
                    None => String::new(),
                };
                let ghost before = messages_view(messages@);
                messages.push(
                    ChatMessage {
                        role: String::from_str("tool"),
                        content: tool_output_content_value(output),
                        tool_call_id: Some(tool_call_id),
                        tool_calls: None,
                        reasoning: None,
                    },
                );
                assert(messages_view(messages@) =~= before.push(messages@.last()@));
            },
            ResponseItem::Reasoning { content: Some(content), .. } => {
                match reasoning_text(content.as_slice()) {
                    Some(reasoning) => {
                        attach_reasoning(&mut messages, reasoning);
                    },
                    None => {},
                }
            },
            _ => {},
        }
        i = i + 1;
    }
    assert(iv.take(request.items@.len() as int) =~= iv);
    let mut tools: Vec<ChatTool> = Vec::new();
    let mut k: usize = 0;
    let ghost tv = rv.tools;
    assert(tv.skip(0) =~= tv);
    while k < request.tools.len()
        invariant
            rv == request@,
            tv == rv.tools,
            k <= request.tools@.len(),
            tools@.len() == k,
            first_unsupported(tv) == first_unsupported(tv.skip(k as int)),
            tools@.map_values(|t: ChatTool| t@) == tv.take(k as int).map_values(
                |t: ToolSpecView| chat_tool_spec(t),
            ),
        decreases request.tools@.len() - k,
    {
        assert(tv.skip(k as int)[0] == tv[k as int]);
        assert(tv.skip(k as int).drop_first() =~= tv.skip(k + 1));
        match chat_tool(&request.tools[k]) {
            Err(e) => {
                return Err(e);
            },
            Ok(t) => {
                assert(tv[k as int] == request.tools@[k as int]@);
                let ghost before = tools@;
                tools.push(t);
                proof {
                    assert forall|j: int| 0 <= j <= k implies #[trigger] tools@[j]@ == chat_tool_spec(tv[j]) by {
                        if j < k {
                            assert(tools@[j] == before[j]);
                            assert(before.map_values(|t: ChatTool| t@)[j] == tv.take(k as int).map_values(
                                |t: ToolSpecView| chat_tool_spec(t),
                            )[j]);
                        }
                    }
                }
            },
        }
        k = k + 1;
        assert(tools@.map_values(|t: ChatTool| t@) =~= tv.take(k as int).map_values(
            |t: ToolSpecView| chat_tool_spec(t),
        ));
    }
    assert(tv.take(request.tools@.len() as int) =~= tv);
    assert(tv.skip(request.tools@.len() as int) =~= Seq::<ToolSpecView>::empty());
    let user = conversation_id(&request.provider_metadata);
    Ok(
        ChatRequestBody {
            model: request.model.clone(),
            messages,
            tools,
            tool_choice: tool_choice(&request.tool_choice),
            parallel_tool_calls: request.parallel_tool_calls,
            stream: request.stream,
            user,
        },
    )
}

/// The value of the first `conversation_id` pair of the provider metadata.
fn conversation_id(metadata: &Vec<(String, String)>) -> (id: Option<String>)
    ensures
        opt_view(id) == metadata_get(crate::canonical::pairs_view(metadata@), "conversation_id"@),
{
    let ghost pv = crate::canonical::pairs_view(metadata@);
    let mut i: usize = 0;
    assert(pv.skip(0) =~= pv);
    while i < metadata.len()
        invariant
            pv == crate::canonical::pairs_view(metadata@),
            i <= metadata@.len(),
            metadata_get(pv, "conversation_id"@) == metadata_get(pv.skip(i as int), "conversation_id"@),
        decreases metadata@.len() - i,
    {
        assert(pv.skip(i as int)[0] == pv[i as int]);
        assert(pv.skip(i as int).drop_first() =~= pv.skip(i + 1));
        if str_eq(metadata[i].0.as_str(), "conversation_id") {
            return Some(metadata[i].1.clone());
        }
        i = i + 1;
    }
    None
}


/// The ids of the tool calls that the messages carry, in order.
pub open spec fn message_call_ids(msgs: Seq<ChatMessageView>) -> Seq<Seq<char>>
    decreases msgs.len(),
{
    if msgs.len() == 0 {
        seq![]
    } else {
        message_call_ids(msgs.drop_last()) + match msgs.last().tool_calls {
            Some(c) => c.map_values(|x: ChatToolCallView| x.id),
            None => seq![],
        }
    }
}

/// The call ids that the tool messages answer, in order.
pub open spec fn message_result_ids(msgs: Seq<ChatMessageView>) -> Seq<Seq<char>>
    decreases msgs.len(),
{
    if msgs.len() == 0 {
        seq![]
    } else {
        message_result_ids(msgs.drop_last()) + match msgs.last().tool_call_id {
            Some(id) => seq![id],
            None => seq![],
        }
    }
}

/// The call ids of the function calls of a history, in order.
pub open spec fn item_call_ids(items: Seq<ResponseItemView>) -> Seq<Seq<char>>
    decreases items.len(),
{
    if items.len() == 0 {
        seq![]
    } else {
        item_call_ids(items.drop_last()) + match items.last() {
            ResponseItemView::FunctionCall { call_id, .. } => seq![call_id],
            _ => seq![],
        }
    }
}

/// The call ids that the tool results of a history answer, in order (empty when missing).
pub open spec fn item_result_ids(items: Seq<ResponseItemView>) -> Seq<Seq<char>>
    decreases items.len(),
{
    if items.len() == 0 {
        seq![]
    } else {
        item_result_ids(items.drop_last()) + match items.last() {
            ResponseItemView::FunctionCallOutput { call_id, .. } => seq![
                match call_id {
                    Some(c) => c,
                    None => seq![],
                },
            ],
            _ => seq![],
        }
    }
}

proof fn lemma_replace_last_ids(msgs: Seq<ChatMessageView>, m: ChatMessageView)
    requires
        msgs.len() > 0,
    ensures
        message_call_ids(msgs.drop_last().push(m)) == message_call_ids(msgs.drop_last()) + match m.tool_calls {
            Some(c) => c.map_values(|x: ChatToolCallView| x.id),
            None => seq![],
        },
        message_result_ids(msgs.drop_last().push(m)) == message_result_ids(msgs.drop_last()) + match m.tool_call_id {
            Some(id) => seq![id],
            None => seq![],
        },
{
    assert(msgs.drop_last().push(m).drop_last() =~= msgs.drop_last());
}

proof fn lemma_chat_step_ids(st: ChatState, item: ResponseItemView)
    ensures
        message_call_ids(chat_step(st, item).messages) == message_call_ids(st.messages) + match item {
            ResponseItemView::FunctionCall { call_id, .. } => seq![call_id],
            _ => seq![],
        },
        message_result_ids(chat_step(st, item).messages) == message_result_ids(st.messages) + match item {
            ResponseItemView::FunctionCallOutput { call_id, .. } => seq![
                match call_id {
                    Some(c) => c,
                    None => seq![],
                },
            ],
            _ => seq![],
        },
{
    let msgs = st.messages;
    match item {
        ResponseItemView::Message { role, content, .. } => {
            let text = message_text_of(content);
            if !(role == "assistant"@ && st.last_assistant_text == Some(text)) {
                let m = chat_step(st, item).messages.last();
                assert(chat_step(st, item).messages.drop_last() =~= msgs);
            }
            assert(message_call_ids(msgs) + seq![] =~= message_call_ids(msgs));
            assert(message_result_ids(msgs) + seq![] =~= message_result_ids(msgs));
        },
        ResponseItemView::FunctionCall { name, namespace, arguments, call_id, .. } => {
            let call = ChatToolCallView {
                id: call_id,
                name: chat_tool_name(ToolNameView { name, namespace }),
                arguments,
            };
            let out = push_tool_call_spec(msgs, call);
            if msgs.len() > 0 && msgs.last().role == "assistant"@ {
                let last = msgs.last();
                let m = out.last();
                lemma_replace_last_ids(msgs, m);
                assert(msgs =~= msgs.drop_last().push(last));
                lemma_replace_last_ids(msgs, last);
                match last.tool_calls {
                    Some(c) => {
                        assert(c.push(call).map_values(|x: ChatToolCallView| x.id) =~= c.map_values(
                            |x: ChatToolCallView| x.id,
                        ).push(call_id));
                    },
                    None => {
                        assert(seq![call].map_values(|x: ChatToolCallView| x.id) =~= seq![call_id]);
                    },
                }
            } else {
                assert(out.drop_last() =~= msgs);
                assert(seq![call].map_values(|x: ChatToolCallView| x.id) =~= seq![call_id]);
            }
            assert(message_result_ids(msgs) + seq![] =~= message_result_ids(msgs));
        },
        ResponseItemView::FunctionCallOutput { .. } => {
            assert(chat_step(st, item).messages.drop_last() =~= msgs);
            assert(message_call_ids(msgs) + seq![] =~= message_call_ids(msgs));
        },
        ResponseItemView::Reasoning { content: Some(c), .. } => {
            if reasoning_text_of(c).len() > 0 && msgs.len() > 0 && msgs.last().role == "assistant"@ {
                let last = msgs.last();
                let m = chat_step(st, item).messages.last();
                lemma_replace_last_ids(msgs, m);
                assert(msgs =~= msgs.drop_last().push(last));
                lemma_replace_last_ids(msgs, last);
            }
            assert(message_call_ids(msgs) + seq![] =~= message_call_ids(msgs));
            assert(message_result_ids(msgs) + seq![] =~= message_result_ids(msgs));
        },
        _ => {
            assert(message_call_ids(msgs) + seq![] =~= message_call_ids(msgs));
            assert(message_result_ids(msgs) + seq![] =~= message_result_ids(msgs));
        },
    }
}

proof fn lemma_chat_fold_ids(st: ChatState, items: Seq<ResponseItemView>)
    ensures
        message_call_ids(chat_fold(st, items).messages) == message_call_ids(st.messages)
            + item_call_ids(items),
        message_result_ids(chat_fold(st, items).messages) == message_result_ids(st.messages)
            + item_result_ids(items),
    decreases items.len(),
{
    if items.len() == 0 {
        assert(message_call_ids(st.messages) + seq![] =~= message_call_ids(st.messages));
        assert(message_result_ids(st.messages) + seq![] =~= message_result_ids(st.messages));
    } else {
        lemma_chat_fold_ids(st, items.drop_last());
        lemma_chat_step_ids(chat_fold(st, items.drop_last()), items.last());
        let a = message_call_ids(st.messages);
        let b = item_call_ids(items.drop_last());
        let c = match items.last() {
            ResponseItemView::FunctionCall { call_id, .. } => seq![call_id],
            _ => seq![],
        };
        assert(a + b + c =~= a + (b + c));
        let d = message_result_ids(st.messages);
        let e = item_result_ids(items.drop_last());
        let f = match items.last() {
            ResponseItemView::FunctionCallOutput { call_id, .. } => seq![
                match call_id {
                    Some(x) => x,
                    None => seq![],
                },
            ],
            _ => seq![],
        };
        assert(d + e + f =~= d + (e + f));
    }
}

/// Every function tool of the request reaches the Chat request as a tool at the same
/// position, under its own name, with its own description as the description and its
/// own JSON schema as the parameters.
pub proof fn lemma_chat_tools_keep_description_and_schema(request: CanonicalRequestView)
    ensures
        chat_request_spec(request) matches Ok(body) ==> {
            &&& body.tools.len() == request.tools.len()
            &&& forall|i: int|
                0 <= i < request.tools.len() ==> (#[trigger] request.tools[i] matches ToolSpecView::Function(t)
                    ==> body.tools[i].name == t.name && body.tools[i].description == t.description
                    && body.tools[i].parameters == t.parameters)
        },
{
}

/// Every function call of the history becomes one tool call of the messages and every
/// tool result one tool message, both in history order and with their call ids: grouping
/// calls into assistant messages loses and reorders nothing.
pub proof fn lemma_chat_keeps_tool_exchange(request: CanonicalRequestView)
    ensures
        message_call_ids(chat_messages(request)) == item_call_ids(request.items),
        message_result_ids(chat_messages(request)) == item_result_ids(request.items),
{
    let start = if request.instructions.len() > 0 {
        seq![
            ChatMessageView {
                role: "system"@,
                content: ChatContentView::Text(request.instructions),
                tool_call_id: None,
                tool_calls: None,
                reasoning: None,
            },
        ]
    } else {
        seq![]
    };
    let st = ChatState { messages: start, last_assistant_text: None };
    lemma_chat_fold_ids(st, request.items);
    if request.instructions.len() > 0 {
        assert(start.drop_last() =~= Seq::<ChatMessageView>::empty());
        assert(message_call_ids(start.drop_last()) =~= Seq::<Seq<char>>::empty());
        assert(message_result_ids(start.drop_last()) =~= Seq::<Seq<char>>::empty());
        assert(start.last().tool_calls is None);
        assert(start.last().tool_call_id is None);
    }
    assert(message_call_ids(start) =~= Seq::<Seq<char>>::empty());
    assert(message_result_ids(start) =~= Seq::<Seq<char>>::empty());
    assert(Seq::<Seq<char>>::empty() + item_call_ids(request.items) =~= item_call_ids(request.items));
    assert(Seq::<Seq<char>>::empty() + item_result_ids(request.items) =~= item_result_ids(request.items));
}

} // verus!
