//! Plain models of the tool specifications offered to a model, with their views.
//! JSON schemas and other provider payloads are carried as JSON text.
use vstd::prelude::*;

use crate::protocol::opt_view;

verus! {

/// A function tool of the Responses API.
#[derive(Clone, Debug, PartialEq, Eq)]
pub struct FunctionTool {
    pub name: String,
    pub description: String,
    pub strict: bool,
    pub defer_loading: Option<bool>,
    /// The JSON schema of the arguments, as JSON text.
    pub parameters: String,
    /// The JSON schema of the output, as JSON text.
    pub output_schema: Option<String>,
}

pub struct FunctionToolView {
    pub name: Seq<char>,
    pub description: Seq<char>,
    pub strict: bool,
    pub defer_loading: Option<bool>,
    pub parameters: Seq<char>,
    pub output_schema: Option<Seq<char>>,
}

impl View for FunctionTool {
    type V = FunctionToolView;

    open spec fn view(&self) -> FunctionToolView {
        FunctionToolView {
            name: self.name@,
            description: self.description@,
            strict: self.strict,
            defer_loading: self.defer_loading,
            parameters: self.parameters@,
            output_schema: opt_view(self.output_schema),
        }
    }
}

/// The grammar of a freeform tool's input.
#[derive(Clone, Debug, PartialEq, Eq)]
pub struct FreeformToolFormat {
    pub kind: String,
    pub syntax: String,
    pub definition: String,
}

pub struct FreeformToolFormatView {
    pub kind: Seq<char>,
    pub syntax: Seq<char>,
    pub definition: Seq<char>,
}

impl View for FreeformToolFormat {
    type V = FreeformToolFormatView;

    open spec fn view(&self) -> FreeformToolFormatView {
        FreeformToolFormatView {
            kind: self.kind@,
            syntax: self.syntax@,
            definition: self.definition@,
        }
    }
}

/// A custom (freeform) tool, whose input is text in a grammar.
#[derive(Clone, Debug, PartialEq, Eq)]
pub struct FreeformTool {
    pub name: String,
    pub description: String,
    pub defer_loading: Option<bool>,
    pub format: FreeformToolFormat,
}

pub struct FreeformToolView {
    pub name: Seq<char>,
    pub description: Seq<char>,
    pub defer_loading: Option<bool>,
    pub format: FreeformToolFormatView,
}

impl View for FreeformTool {
    type V = FreeformToolView;

    open spec fn view(&self) -> FreeformToolView {
        FreeformToolView {
            name: self.name@,
            description: self.description@,
            defer_loading: self.defer_loading,
            format: self.format@,
        }
    }
}

/// A member of a tool namespace.
#[derive(Clone, Debug, PartialEq, Eq)]
pub enum NamespaceTool {
    Function(FunctionTool),
    Custom(FreeformTool),
}

pub enum NamespaceToolView {
    Function(FunctionToolView),
    Custom(FreeformToolView),
}

impl View for NamespaceTool {
    type V = NamespaceToolView;

    open spec fn view(&self) -> NamespaceToolView {
        match self {
            NamespaceTool::Function(t) => NamespaceToolView::Function(t@),
            NamespaceTool::Custom(t) => NamespaceToolView::Custom(t@),
        }
    }
}

impl NamespaceToolView {
    pub open spec fn name(self) -> Seq<char> {
        match self {
            NamespaceToolView::Function(t) => t.name,
            NamespaceToolView::Custom(t) => t.name,
        }
    }
}

pub open spec fn members_view(v: Seq<NamespaceTool>) -> Seq<NamespaceToolView> {
    v.map_values(|t: NamespaceTool| t@)
}

/// A group of tools under one namespace.
#[derive(Clone, Debug, PartialEq, Eq)]
pub struct Namespace {
    pub name: String,
    pub description: String,
    pub tools: Vec<NamespaceTool>,
}

pub struct NamespaceView {
    pub name: Seq<char>,
    pub description: Seq<char>,
    pub tools: Seq<NamespaceToolView>,
}

impl View for Namespace {
    type V = NamespaceView;

    open spec fn view(&self) -> NamespaceView {
        NamespaceView {
            name: self.name@,
            description: self.description@,
            tools: members_view(self.tools@),
        }
    }
}

/// A tool offered to the model.
#[derive(Clone, Debug, PartialEq, Eq)]
pub enum ToolSpec {
    Function(FunctionTool),
    Namespace(Namespace),
    Freeform(FreeformTool),
    /// The client-side tool search tool; its parameters are JSON text.
    ToolSearch { execution: String, description: String, parameters: String },
    /// The built-in web search tool; its options are JSON text.
    WebSearch { options: String },
}

pub enum ToolSpecView {
    Function(FunctionToolView),
    Namespace(NamespaceView),
    Freeform(FreeformToolView),
    ToolSearch { execution: Seq<char>, description: Seq<char>, parameters: Seq<char> },
    WebSearch { options: Seq<char> },
}

impl View for ToolSpec {
    type V = ToolSpecView;

    open spec fn view(&self) -> ToolSpecView {
        match self {
            ToolSpec::Function(t) => ToolSpecView::Function(t@),
            ToolSpec::Namespace(n) => ToolSpecView::Namespace(n@),
            ToolSpec::Freeform(t) => ToolSpecView::Freeform(t@),
            ToolSpec::ToolSearch { execution, description, parameters } =>
                ToolSpecView::ToolSearch {
                execution: execution@,
                description: description@,
                parameters: parameters@,
            },
            ToolSpec::WebSearch { options } => ToolSpecView::WebSearch { options: options@ },
        }
    }
}

impl ToolSpecView {
    /// The name under which the tool is known.
    pub open spec fn name(self) -> Seq<char> {
        match self {
            ToolSpecView::Function(t) => t.name,
            ToolSpecView::Namespace(n) => n.name,
            ToolSpecView::Freeform(t) => t.name,
            ToolSpecView::ToolSearch { .. } => "tool_search"@,
            ToolSpecView::WebSearch { .. } => "web_search"@,
        }
    }
}

pub open spec fn specs_view(v: Seq<ToolSpec>) -> Seq<ToolSpecView> {
    v.map_values(|t: ToolSpec| t@)
}

impl ToolSpec {
    /// The name under which the tool is known.
    pub fn name(&self) -> (name: String)
        ensures
            name@ == self@.name(),
    {
        match self {
            ToolSpec::Function(t) => t.name.clone(),
            ToolSpec::Namespace(n) => n.name.clone(),
            ToolSpec::Freeform(t) => t.name.clone(),
            ToolSpec::ToolSearch { .. } => String::from_str("tool_search"),
            ToolSpec::WebSearch { .. } => String::from_str("web_search"),
        }
    }
}

} // verus!
