//! Provider features of each model wire, and what a wire does with the tool surface,
//! the history and the tool names the model emits.
use vstd::prelude::*;

use crate::protocol::{items_view, ResponseItem, ToolName, ToolNameView};
use crate::tool_plan::{adapt_items_spec, lookup, plan_spec, total_units, ToolPlan, ToolPlanError};
use crate::tool_spec::{specs_view, ToolSpec};

verus! {

/// Provider features available to a model-wire adapter.
#[derive(Clone, Copy, Debug, PartialEq, Eq, Structural)]
pub struct WireCapabilities {
    pub namespace_tools: bool,
    pub custom_tools: bool,
    pub responses_lite: bool,
    pub tool_search: bool,
    pub built_in_tools: bool,
    pub parallel_tool_calls: bool,
}

impl Default for WireCapabilities {
    /// No feature at all.
    fn default() -> (caps: Self)
        ensures
            caps == (WireCapabilities {
                namespace_tools: false,
                custom_tools: false,
                responses_lite: false,
                tool_search: false,
                built_in_tools: false,
                parallel_tool_calls: false,
            }),
    {
        WireCapabilities {
            namespace_tools: false,
            custom_tools: false,
            responses_lite: false,
            tool_search: false,
            built_in_tools: false,
            parallel_tool_calls: false,
        }
    }
}

pub open spec fn native_responses_spec() -> WireCapabilities {
    WireCapabilities {
        namespace_tools: true,
        custom_tools: true,
        responses_lite: true,
        tool_search: true,
        built_in_tools: true,
        parallel_tool_calls: true,
    }
}

pub open spec fn function_only_spec() -> WireCapabilities {
    WireCapabilities {
        namespace_tools: false,
        custom_tools: false,
        responses_lite: false,
        tool_search: false,
        built_in_tools: false,
        parallel_tool_calls: true,
    }
}

impl WireCapabilities {
    /// Full native Responses capabilities used by the OpenAI Responses API.
    pub fn native_responses() -> (caps: Self)
        ensures
            caps == native_responses_spec(),
    {
        WireCapabilities {
            namespace_tools: true,
            custom_tools: true,
            responses_lite: true,
            tool_search: true,
            built_in_tools: true,
            parallel_tool_calls: true,
        }
    }

    /// Conservative function-only capabilities shared by generic Responses and Chat
    /// Completions providers.
    pub fn function_only() -> (caps: Self)
        ensures
            caps == function_only_spec(),
    {
        WireCapabilities {
            namespace_tools: false,
            custom_tools: false,
            responses_lite: false,
            tool_search: false,
            built_in_tools: false,
            parallel_tool_calls: true,
        }
    }
}

/// Transport implementation selected by a wire adapter.
#[derive(Clone, Copy, Debug, PartialEq, Eq, Structural)]
pub enum ResponseTransportKind {
    Responses,
    ChatCompletions,
}

/// Wire adapter selected for a provider.
#[derive(Clone, Copy, Debug, PartialEq, Eq, Structural)]
pub enum WireAdapter {
    ResponsesNative,
    ResponsesFunctionOnly,
    ChatCompletionsFunctionOnly,
}

impl Default for WireAdapter {
    /// The native Responses wire.
    fn default() -> (adapter: Self)
        ensures
            adapter == WireAdapter::ResponsesNative,
    {
        WireAdapter::ResponsesNative
    }
}

impl WireAdapter {
    pub open spec fn capabilities_spec(self) -> WireCapabilities {
        match self {
            WireAdapter::ResponsesNative => native_responses_spec(),
            _ => function_only_spec(),
        }
    }

    pub open spec fn transport_kind_spec(self) -> ResponseTransportKind {
        match self {
            WireAdapter::ChatCompletionsFunctionOnly => ResponseTransportKind::ChatCompletions,
            _ => ResponseTransportKind::Responses,
        }
    }

    /// Returns the provider features exposed by this wire.
    pub fn capabilities(self) -> (caps: WireCapabilities)
        ensures
            caps == self.capabilities_spec(),
    {
        match self {
            WireAdapter::ResponsesNative => WireCapabilities::native_responses(),
            WireAdapter::ResponsesFunctionOnly | WireAdapter::ChatCompletionsFunctionOnly => {
                WireCapabilities::function_only()
            },
        }
    }

    /// Returns the transport implementation used by this wire.
    pub fn transport_kind(self) -> (kind: ResponseTransportKind)
        ensures
            kind == self.transport_kind_spec(),
    {
        match self {
            WireAdapter::ResponsesNative | WireAdapter::ResponsesFunctionOnly => {
                ResponseTransportKind::Responses
            },
            WireAdapter::ChatCompletionsFunctionOnly => ResponseTransportKind::ChatCompletions,
        }
    }
}


impl WireAdapter {
    /// Applies this wire's capabilities to the model-visible tool surface.
    pub fn tool_plan(self, tools: Vec<ToolSpec>) -> (result: Result<ToolPlan, ToolPlanError>)
        requires
            total_units(specs_view(tools@)) <= usize::MAX,
        ensures
            match plan_spec(specs_view(tools@), self.capabilities_spec()) {
                Ok(v) => result matches Ok(plan) && plan@ == v && plan.wf(),
                Err(e) => result matches Err(x) && x@ == e,
            },
    {
        ToolPlan::new(tools, self.capabilities())
    }

    /// Adapts a request-local copy of canonical history to this wire: the native wire
    /// keeps it as it is, a function-only wire adapts it with the plan.
    pub fn adapt_history(self, plan: &ToolPlan, items: Vec<ResponseItem>) -> (adapted: Vec<
        ResponseItem,
    >)
        ensures
            self == WireAdapter::ResponsesNative ==> adapted@ == items@,
            self != WireAdapter::ResponsesNative ==> items_view(adapted@) == adapt_items_spec(
                plan@.capabilities,
                plan@.identities,
                items_view(items@),
            ),
    {
        match self {
            WireAdapter::ResponsesNative => items,
            WireAdapter::ResponsesFunctionOnly | WireAdapter::ChatCompletionsFunctionOnly => {
                plan.adapt_items(items)
            },
        }
    }

    /// Decodes a model-emitted tool name into the canonical namespace: through the plan on
    /// a function-only wire, as a plain name otherwise or when the plan does not know it.
    pub fn decode_tool_name(self, plan: &ToolPlan, wire_name: &str) -> (tool: ToolName)
        ensures
            tool@ == if self == WireAdapter::ResponsesNative {
                ToolNameView { name: wire_name@, namespace: None }
            } else {
                match lookup(plan@.identities, wire_name@) {
                    Some(id) => id,
                    None => ToolNameView { name: wire_name@, namespace: None },
                }
            },
    {
        match self {
            WireAdapter::ResponsesNative => ToolName::plain(wire_name),
            WireAdapter::ResponsesFunctionOnly | WireAdapter::ChatCompletionsFunctionOnly => {
                match plan.decode_flat_name(wire_name) {
                    Some(tool) => tool,
                    None => ToolName::plain(wire_name),
                }
            },
        }
    }
}

} // verus!
