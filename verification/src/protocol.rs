//! Plain models of the conversation items and tool names that travel between the
//! canonical history and the provider wires, each with its abstract view.
use vstd::prelude::*;

use crate::text::str_eq;

verus! {

/// The namespace that stands for "no namespace": functions in it are exposed under
/// their bare name.
pub const DEFAULT_FUNCTION_NAMESPACE: &'static str = "functions";

pub open spec fn default_namespace() -> Seq<char> {
    DEFAULT_FUNCTION_NAMESPACE@
}

/// The view of an optional string.
pub open spec fn opt_view(o: Option<String>) -> Option<Seq<char>> {
    match o {
        Some(s) => Some(s@),
        None => None,
    }
}

/// Copies an optional string.
pub fn copy_opt(o: &Option<String>) -> (c: Option<String>)
    ensures
        opt_view(c) == opt_view(*o),
{
    match o {
        Some(s) => Some(s.clone()),
        None => None,
    }
}

/// A canonical tool identity: a name, optionally inside a namespace.
#[derive(Clone, Debug, PartialEq, Eq)]
pub struct ToolName {
    pub name: String,
    pub namespace: Option<String>,
}

pub struct ToolNameView {
    pub name: Seq<char>,
    pub namespace: Option<Seq<char>>,
}

impl ToolNameView {
    /// The identity with a missing namespace replaced by the default one.
    pub open spec fn with_default_namespace(self) -> ToolNameView {
        ToolNameView {
            name: self.name,
            namespace: Some(
                match self.namespace {
                    Some(n) => n,
                    None => default_namespace(),
                },
            ),
        }
    }

    /// No namespace, or the default one.
    pub open spec fn is_default_namespace(self) -> bool {
        self.namespace is None || self.namespace == Some(default_namespace())
    }
}

impl View for ToolName {
    type V = ToolNameView;

    open spec fn view(&self) -> ToolNameView {
        ToolNameView { name: self.name@, namespace: opt_view(self.namespace) }
    }
}

impl ToolName {
    /// A tool outside any namespace.
    pub fn plain(name: &str) -> (t: ToolName)
        ensures
            t@ == (ToolNameView { name: name@, namespace: None }),
    {
        ToolName { name: String::from_str(name), namespace: None }
    }

    /// A tool inside `namespace`.
    pub fn namespaced(namespace: &str, name: &str) -> (t: ToolName)
        ensures
            t@ == (ToolNameView { name: name@, namespace: Some(namespace@) }),
    {
        ToolName { name: String::from_str(name), namespace: Some(String::from_str(namespace)) }
    }

    /// A tool with an optional namespace.
    pub fn new(namespace: Option<String>, name: String) -> (t: ToolName)
        ensures
            t@ == (ToolNameView { name: name@, namespace: opt_view(namespace) }),
    {
        ToolName { name, namespace }
    }

    /// The same identity with a missing namespace replaced by the default one.
    pub fn with_default_namespace(self) -> (t: ToolName)
        ensures
            t@ == self@.with_default_namespace(),
    {
        match self.namespace {
            Some(namespace) => ToolName { name: self.name, namespace: Some(namespace) },
            None => ToolName {
                name: self.name,
                namespace: Some(String::from_str(DEFAULT_FUNCTION_NAMESPACE)),
            },
        }
    }

    /// Whether the tool has no namespace or the default one.
    pub fn is_default_namespace(&self) -> (b: bool)
        ensures
            b == self@.is_default_namespace(),
    {
        match &self.namespace {
            None => true,
            Some(namespace) => str_eq(namespace.as_str(), DEFAULT_FUNCTION_NAMESPACE),
        }
    }

    /// A copy with the same view.
    pub fn duplicate(&self) -> (t: ToolName)
        ensures
            t@ == self@,
    {
        ToolName { name: self.name.clone(), namespace: copy_opt(&self.namespace) }
    }
}


/// The views of a sequence of strings.
pub open spec fn strings_view(v: Seq<String>) -> Seq<Seq<char>> {
    v.map_values(|s: String| s@)
}

/// Where an image comes from: an inline URL, or a reference to a file.
#[derive(Clone, Debug, PartialEq, Eq)]
pub enum ImageReference {
    Inline { image_url: String },
    File { reference: String },
}

pub enum ImageReferenceView {
    Inline { image_url: Seq<char> },
    File { reference: Seq<char> },
}

impl View for ImageReference {
    type V = ImageReferenceView;

    open spec fn view(&self) -> ImageReferenceView {
        match self {
            ImageReference::Inline { image_url } => ImageReferenceView::Inline {
                image_url: image_url@,
            },
            ImageReference::File { reference } => ImageReferenceView::File {
                reference: reference@,
            },
        }
    }
}

/// One part of a message's content.
#[derive(Clone, Debug, PartialEq, Eq)]
pub enum ContentItem {
    InputText { text: String },
    OutputText { text: String },
    InputImage { image: ImageReference, detail: Option<String> },
    InputAudio { audio: String },
}

pub enum ContentItemView {
    InputText { text: Seq<char> },
    OutputText { text: Seq<char> },
    InputImage { image: ImageReferenceView, detail: Option<Seq<char>> },
    InputAudio { audio: Seq<char> },
}

impl View for ContentItem {
    type V = ContentItemView;

    open spec fn view(&self) -> ContentItemView {
        match self {
            ContentItem::InputText { text } => ContentItemView::InputText { text: text@ },
            ContentItem::OutputText { text } => ContentItemView::OutputText { text: text@ },
            ContentItem::InputImage { image, detail } => ContentItemView::InputImage {
                image: image@,
                detail: opt_view(*detail),
            },
            ContentItem::InputAudio { audio } => ContentItemView::InputAudio { audio: audio@ },
        }
    }
}

pub open spec fn contents_view(v: Seq<ContentItem>) -> Seq<ContentItemView> {
    v.map_values(|c: ContentItem| c@)
}

/// One part of a message between agents: plain text, or encrypted content.
#[derive(Clone, Debug, PartialEq, Eq)]
pub enum AgentMessageContent {
    InputText { text: String },
    EncryptedContent { encrypted_content: String },
}

pub enum AgentMessageContentView {
    InputText { text: Seq<char> },
    EncryptedContent { encrypted_content: Seq<char> },
}

impl View for AgentMessageContent {
    type V = AgentMessageContentView;

    open spec fn view(&self) -> AgentMessageContentView {
        match self {
            AgentMessageContent::InputText { text } => AgentMessageContentView::InputText {
                text: text@,
            },
            AgentMessageContent::EncryptedContent { encrypted_content } =>
                AgentMessageContentView::EncryptedContent {
                encrypted_content: encrypted_content@,
            },
        }
    }
}

pub open spec fn agent_contents_view(v: Seq<AgentMessageContent>) -> Seq<AgentMessageContentView> {
    v.map_values(|c: AgentMessageContent| c@)
}

/// One part of the content of a reasoning item.
#[derive(Clone, Debug, PartialEq, Eq)]
pub enum ReasoningContent {
    ReasoningText { text: String },
    Text { text: String },
}

pub enum ReasoningContentView {
    ReasoningText { text: Seq<char> },
    Text { text: Seq<char> },
}

impl View for ReasoningContent {
    type V = ReasoningContentView;

    open spec fn view(&self) -> ReasoningContentView {
        match self {
            ReasoningContent::ReasoningText { text } => ReasoningContentView::ReasoningText {
                text: text@,
            },
            ReasoningContent::Text { text } => ReasoningContentView::Text { text: text@ },
        }
    }
}

pub open spec fn reasoning_view(v: Option<Vec<ReasoningContent>>) -> Option<Seq<ReasoningContentView>> {
    match v {
        Some(c) => Some(c@.map_values(|r: ReasoningContent| r@)),
        None => None,
    }
}

/// One part of a structured tool output.
#[derive(Clone, Debug, PartialEq, Eq)]
pub enum OutputContentItem {
    InputText { text: String },
    InputImage { image: ImageReference, detail: Option<String> },
    InputAudio { audio: String },
    EncryptedContent { encrypted_content: String },
}

pub enum OutputContentItemView {
    InputText { text: Seq<char> },
    InputImage { image: ImageReferenceView, detail: Option<Seq<char>> },
    InputAudio { audio: Seq<char> },
    EncryptedContent { encrypted_content: Seq<char> },
}

impl View for OutputContentItem {
    type V = OutputContentItemView;

    open spec fn view(&self) -> OutputContentItemView {
        match self {
            OutputContentItem::InputText { text } => OutputContentItemView::InputText {
                text: text@,
            },
            OutputContentItem::InputImage { image, detail } => OutputContentItemView::InputImage {
                image: image@,
                detail: opt_view(*detail),
            },
            OutputContentItem::InputAudio { audio } => OutputContentItemView::InputAudio {
                audio: audio@,
            },
            OutputContentItem::EncryptedContent { encrypted_content } =>
                OutputContentItemView::EncryptedContent { encrypted_content: encrypted_content@ },
        }
    }
}

/// The body of a tool output: plain text, or structured content items.
#[derive(Clone, Debug, PartialEq, Eq)]
pub enum OutputBody {
    Text(String),
    ContentItems(Vec<OutputContentItem>),
}

pub enum OutputBodyView {
    Text(Seq<char>),
    ContentItems(Seq<OutputContentItemView>),
}

impl View for OutputBody {
    type V = OutputBodyView;

    open spec fn view(&self) -> OutputBodyView {
        match self {
            OutputBody::Text(text) => OutputBodyView::Text(text@),
            OutputBody::ContentItems(items) => OutputBodyView::ContentItems(
                items@.map_values(|i: OutputContentItem| i@),
            ),
        }
    }
}

/// The output a tool call produced.
#[derive(Clone, Debug, PartialEq, Eq)]
pub struct FunctionCallOutputPayload {
    pub body: OutputBody,
    pub success: Option<bool>,
}

pub struct FunctionCallOutputPayloadView {
    pub body: OutputBodyView,
    pub success: Option<bool>,
}

impl View for FunctionCallOutputPayload {
    type V = FunctionCallOutputPayloadView;

    open spec fn view(&self) -> FunctionCallOutputPayloadView {
        FunctionCallOutputPayloadView { body: self.body@, success: self.success }
    }
}

impl FunctionCallOutputPayload {
    /// A plain-text output.
    pub fn from_text(text: String) -> (p: FunctionCallOutputPayload)
        ensures
            p@ == (FunctionCallOutputPayloadView { body: OutputBodyView::Text(text@), success: None }),
    {
        FunctionCallOutputPayload { body: OutputBody::Text(text), success: None }
    }
}

/// Kinds of history items that are carried without being looked into; only their kind
/// decides whether a wire can carry them.
#[derive(Clone, Copy, Debug, PartialEq, Eq, Structural)]
pub enum PassthroughKind {
    CustomToolCall,
    CustomToolCallOutput,
    ToolSearchCall,
    ToolSearchOutput,
    WebSearchCall,
    ImageGenerationCall,
    AdditionalTools,
    Compaction,
    ConfigurationUpdate,
    CompactionTrigger,
    ContextCompaction,
    LocalShellCall,
    Other,
}

/// One item of the canonical conversation history.
#[derive(Clone, Debug, PartialEq, Eq)]
pub enum ResponseItem {
    Message {
        id: Option<String>,
        role: String,
        content: Vec<ContentItem>,
        phase: Option<String>,
        internal_chat_message_metadata_passthrough: Option<String>,
    },
    FunctionCall {
        id: Option<String>,
        name: String,
        namespace: Option<String>,
        arguments: String,
        encrypted_function_args: Option<String>,
        call_id: String,
        internal_chat_message_metadata_passthrough: Option<String>,
    },
    FunctionCallOutput {
        id: Option<String>,
        call_id: Option<String>,
        name: Option<String>,
        namespace: Option<String>,
        output: FunctionCallOutputPayload,
        internal_chat_message_metadata_passthrough: Option<String>,
    },
    AgentMessage {
        id: Option<String>,
        author: String,
        recipient: String,
        content: Vec<AgentMessageContent>,
        internal_chat_message_metadata_passthrough: Option<String>,
    },
    Reasoning {
        id: Option<String>,
        summary: Vec<String>,
        content: Option<Vec<ReasoningContent>>,
        encrypted_content: Option<String>,
        internal_chat_message_metadata_passthrough: Option<String>,
    },
    Passthrough { kind: PassthroughKind, body: String },
}

pub enum ResponseItemView {
    Message {
        id: Option<Seq<char>>,
        role: Seq<char>,
        content: Seq<ContentItemView>,
        phase: Option<Seq<char>>,
        metadata: Option<Seq<char>>,
    },
    FunctionCall {
        id: Option<Seq<char>>,
        name: Seq<char>,
        namespace: Option<Seq<char>>,
        arguments: Seq<char>,
        encrypted_function_args: Option<Seq<char>>,
        call_id: Seq<char>,
        metadata: Option<Seq<char>>,
    },
    FunctionCallOutput {
        id: Option<Seq<char>>,
        call_id: Option<Seq<char>>,
        name: Option<Seq<char>>,
        namespace: Option<Seq<char>>,
        output: FunctionCallOutputPayloadView,
        metadata: Option<Seq<char>>,
    },
    AgentMessage {
        id: Option<Seq<char>>,
        author: Seq<char>,
        recipient: Seq<char>,
        content: Seq<AgentMessageContentView>,
        metadata: Option<Seq<char>>,
    },
    Reasoning {
        id: Option<Seq<char>>,
        summary: Seq<Seq<char>>,
        content: Option<Seq<ReasoningContentView>>,
        encrypted_content: Option<Seq<char>>,
        metadata: Option<Seq<char>>,
    },
    Passthrough { kind: PassthroughKind, body: Seq<char> },
}

impl View for ResponseItem {
    type V = ResponseItemView;

    open spec fn view(&self) -> ResponseItemView {
        match self {
            ResponseItem::Message {
                id,
                role,
                content,
                phase,
                internal_chat_message_metadata_passthrough,
            } => ResponseItemView::Message {
                id: opt_view(*id),
                role: role@,
                content: contents_view(content@),
                phase: opt_view(*phase),
                metadata: opt_view(*internal_chat_message_metadata_passthrough),
            },
            ResponseItem::FunctionCall {
                id,
                name,
                namespace,
                arguments,
                encrypted_function_args,
                call_id,
                internal_chat_message_metadata_passthrough,
            } => ResponseItemView::FunctionCall {
                id: opt_view(*id),
                name: name@,
                namespace: opt_view(*namespace),
                arguments: arguments@,
                encrypted_function_args: opt_view(*encrypted_function_args),
                call_id: call_id@,
                metadata: opt_view(*internal_chat_message_metadata_passthrough),
            },
            ResponseItem::FunctionCallOutput {
                id,
                call_id,
                name,
                namespace,
                output,
                internal_chat_message_metadata_passthrough,
            } => ResponseItemView::FunctionCallOutput {
                id: opt_view(*id),
                call_id: opt_view(*call_id),
                name: opt_view(*name),
                namespace: opt_view(*namespace),
                output: output@,
                metadata: opt_view(*internal_chat_message_metadata_passthrough),
            },
            ResponseItem::AgentMessage {
                id,
                author,
                recipient,
                content,
                internal_chat_message_metadata_passthrough,
            } => ResponseItemView::AgentMessage {
                id: opt_view(*id),
                author: author@,
                recipient: recipient@,
                content: agent_contents_view(content@),
                metadata: opt_view(*internal_chat_message_metadata_passthrough),
            },
            ResponseItem::Reasoning {
                id,
                summary,
                content,
                encrypted_content,
                internal_chat_message_metadata_passthrough,
            } => ResponseItemView::Reasoning {
                id: opt_view(*id),
                summary: strings_view(summary@),
                content: reasoning_view(*content),
                encrypted_content: opt_view(*encrypted_content),
                metadata: opt_view(*internal_chat_message_metadata_passthrough),
            },
            ResponseItem::Passthrough { kind, body } => ResponseItemView::Passthrough {
                kind: *kind,
                body: body@,
            },
        }
    }
}

pub open spec fn items_view(v: Seq<ResponseItem>) -> Seq<ResponseItemView> {
    v.map_values(|i: ResponseItem| i@)
}

/// Token counts reported for a response.
#[derive(Clone, Copy, Debug, PartialEq, Eq, Structural)]
pub struct TokenUsage {
    pub input_tokens: i64,
    pub cached_input_tokens: i64,
    pub cache_write_input_tokens: i64,
    pub output_tokens: i64,
    pub reasoning_output_tokens: i64,
    pub total_tokens: i64,
}


impl ImageReference {
    /// A copy with the same view.
    pub fn duplicate(&self) -> (r: ImageReference)
        ensures
            r@ == self@,
    {
        match self {
            ImageReference::Inline { image_url } => ImageReference::Inline {
                image_url: image_url.clone(),
            },
            ImageReference::File { reference } => ImageReference::File {
                reference: reference.clone(),
            },
        }
    }
}

impl ContentItem {
    /// A copy with the same view.
    pub fn duplicate(&self) -> (c: ContentItem)
        ensures
            c@ == self@,
    {
        match self {
            ContentItem::InputText { text } => ContentItem::InputText { text: text.clone() },
            ContentItem::OutputText { text } => ContentItem::OutputText { text: text.clone() },
            ContentItem::InputImage { image, detail } => ContentItem::InputImage {
                image: image.duplicate(),
                detail: copy_opt(detail),
            },
            ContentItem::InputAudio { audio } => ContentItem::InputAudio { audio: audio.clone() },
        }
    }
}

impl OutputContentItem {
    /// A copy with the same view.
    pub fn duplicate(&self) -> (c: OutputContentItem)
        ensures
            c@ == self@,
    {
        match self {
            OutputContentItem::InputText { text } => OutputContentItem::InputText {
                text: text.clone(),
            },
            OutputContentItem::InputImage { image, detail } => OutputContentItem::InputImage {
                image: image.duplicate(),
                detail: copy_opt(detail),
            },
            OutputContentItem::InputAudio { audio } => OutputContentItem::InputAudio {
                audio: audio.clone(),
            },
            OutputContentItem::EncryptedContent { encrypted_content } =>
                OutputContentItem::EncryptedContent { encrypted_content: encrypted_content.clone() },
        }
    }
}

} // verus!
