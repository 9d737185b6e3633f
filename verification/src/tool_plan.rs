//! The model-visible tool surface of a wire: capability-driven filtering, namespace
//! flattening for function-only wires, and the identities that map the names the model
//! sees back to canonical tool names.
use vstd::prelude::*;
use vstd::utf8::*;
use vstd::string::StringSliceAdditionalSpecFns;

use crate::capabilities::WireCapabilities;
use crate::protocol::{
    default_namespace, opt_view, AgentMessageContent, AgentMessageContentView,
    ContentItem, ContentItemView, PassthroughKind, ResponseItem, ResponseItemView, ToolName,
    ToolNameView, items_view,
};
use crate::text::{
    chars_less, chars_lt, chars_of, decimal, lemma_chars_lt_irreflexive, lemma_chars_lt_total,
    lemma_chars_lt_transitive, push_decimal, str_eq,
};
use crate::tool_spec::{
    specs_view, FunctionTool, FunctionToolView, Namespace, NamespaceTool, NamespaceToolView,
    NamespaceView, ToolSpec, ToolSpecView,
};

verus! {

/// Separator used to flatten namespaced tools into ordinary function names.
pub const FLAT_TOOL_NAME_SEPARATOR: &'static str = "__";

/// Longest function name, in bytes, that a function-only wire accepts.
pub const MAX_FUNCTION_NAME_LEN: usize = 64;

/// Error produced while finalizing a model-visible tool plan.
#[derive(Clone, Debug, PartialEq, Eq)]
pub enum ToolPlanError {
    EmptyName,
    NameTooLong { name: String, max_len: usize },
    Collision { name: String },
}

pub enum ToolPlanErrorView {
    EmptyName,
    NameTooLong { name: Seq<char>, max_len: nat },
    Collision { name: Seq<char> },
}

impl View for ToolPlanError {
    type V = ToolPlanErrorView;

    open spec fn view(&self) -> ToolPlanErrorView {
        match self {
            ToolPlanError::EmptyName => ToolPlanErrorView::EmptyName,
            ToolPlanError::NameTooLong { name, max_len } => ToolPlanErrorView::NameTooLong {
                name: name@,
                max_len: *max_len as nat,
            },
            ToolPlanError::Collision { name } => ToolPlanErrorView::Collision { name: name@ },
        }
    }
}

impl ToolPlanErrorView {
    pub open spec fn message_text(self) -> Seq<char> {
        match self {
            ToolPlanErrorView::EmptyName => "tool name cannot be empty"@,
            ToolPlanErrorView::NameTooLong { name, max_len } => "tool name `"@ + name
                + "` exceeds the "@ + decimal(max_len) + "-character wire limit"@,
            ToolPlanErrorView::Collision { name } => "multiple tools map to the wire name `"@
                + name + "`"@,
        }
    }
}

impl ToolPlanError {
    /// The description of the failure.
    pub fn message(&self) -> (message: String)
        ensures
            message@ == self@.message_text(),
    {
        let mut message = String::new();
        match self {
            ToolPlanError::EmptyName => {
                message.append("tool name cannot be empty");
            },
            ToolPlanError::NameTooLong { name, max_len } => {
                message.append("tool name `");
                message.append(name.as_str());
                message.append("` exceeds the ");
                push_decimal(&mut message, *max_len as u64);
                message.append("-character wire limit");
            },
            ToolPlanError::Collision { name } => {
                message.append("multiple tools map to the wire name `");
                message.append(name.as_str());
                message.append("`");
            },
        }
        message
    }
}

/// The flat function name of tool `name` in `namespace`: the bare name in the default
/// namespace, else the namespace, the separator and the name.
pub open spec fn flatten_name(namespace: Seq<char>, name: Seq<char>) -> Seq<char> {
    if namespace == default_namespace() {
        name
    } else {
        namespace + FLAT_TOOL_NAME_SEPARATOR@ + name
    }
}

/// Why a wire name is refused, if it is: it is empty, or longer than the limit in bytes.
pub open spec fn wire_name_error(name: Seq<char>) -> Option<ToolPlanErrorView> {
    if name.len() == 0 {
        Some(ToolPlanErrorView::EmptyName)
    } else if encode_utf8(name).len() > MAX_FUNCTION_NAME_LEN {
        Some(ToolPlanErrorView::NameTooLong { name, max_len: MAX_FUNCTION_NAME_LEN as nat })
    } else {
        None
    }
}

/// The flat name of a tool identity (the key under which a plan records it).
pub open spec fn identity_key(id: ToolNameView) -> Seq<char> {
    match id.namespace {
        Some(ns) => flatten_name(ns, id.name),
        None => id.name,
    }
}

/// Identities listed strictly increasing by key.
pub open spec fn keys_sorted(ids: Seq<(Seq<char>, ToolNameView)>) -> bool {
    forall|i: int, j: int| 0 <= i < j < ids.len() ==> chars_lt(#[trigger] ids[i].0, #[trigger] ids[j].0)
}

/// Every identity is recorded under its own flat name.
pub open spec fn keys_match(ids: Seq<(Seq<char>, ToolNameView)>) -> bool {
    forall|i: int| 0 <= i < ids.len() ==> #[trigger] ids[i].0 == identity_key(ids[i].1)
}

pub open spec fn has_key(ids: Seq<(Seq<char>, ToolNameView)>, key: Seq<char>) -> bool {
    exists|i: int| 0 <= i < ids.len() && #[trigger] ids[i].0 == key
}

/// Where `key` goes in the sorted identities: before the first larger key.
pub open spec fn insert_pos(ids: Seq<(Seq<char>, ToolNameView)>, key: Seq<char>, from: int) -> int
    decreases ids.len() - from,
{
    if from < 0 || from >= ids.len() {
        ids.len() as int
    } else if chars_lt(key, ids[from].0) {
        from
    } else {
        insert_pos(ids, key, from + 1)
    }
}

pub open spec fn insert_sorted(
    ids: Seq<(Seq<char>, ToolNameView)>,
    key: Seq<char>,
    id: ToolNameView,
) -> Seq<(Seq<char>, ToolNameView)> {
    ids.insert(insert_pos(ids, key, 0), (key, id))
}

/// The identity recorded under `key`.
pub open spec fn lookup(ids: Seq<(Seq<char>, ToolNameView)>, key: Seq<char>) -> Option<ToolNameView>
    decreases ids.len(),
{
    if ids.len() == 0 {
        None
    } else if ids[0].0 == key {
        Some(ids[0].1)
    } else {
        lookup(ids.drop_first(), key)
    }
}

/// The key of the first identity equal to `tool` once missing namespaces are defaulted.
pub open spec fn encode_spec(ids: Seq<(Seq<char>, ToolNameView)>, tool: ToolNameView) -> Option<
    Seq<char>,
>
    decreases ids.len(),
{
    if ids.len() == 0 {
        None
    } else if ids[0].1.with_default_namespace() == tool.with_default_namespace() {
        Some(ids[0].0)
    } else {
        encode_spec(ids.drop_first(), tool)
    }
}

/// A tool plan in the abstract: the capabilities it was made for, the tools the model
/// sees, the identities by wire name, and how many tools were flattened and hidden.
pub struct PlanView {
    pub capabilities: WireCapabilities,
    pub tools: Seq<ToolSpecView>,
    pub identities: Seq<(Seq<char>, ToolNameView)>,
    pub flattened: nat,
    pub hidden: nat,
}

impl PlanView {
    pub open spec fn push_tool(self, tool: ToolSpecView) -> PlanView {
        PlanView {
            capabilities: self.capabilities,
            tools: self.tools.push(tool),
            identities: self.identities,
            flattened: self.flattened,
            hidden: self.hidden,
        }
    }

    pub open spec fn add_hidden(self, n: nat) -> PlanView {
        PlanView {
            capabilities: self.capabilities,
            tools: self.tools,
            identities: self.identities,
            flattened: self.flattened,
            hidden: self.hidden + n,
        }
    }

    pub open spec fn with_identities(self, ids: Seq<(Seq<char>, ToolNameView)>) -> PlanView {
        PlanView {
            capabilities: self.capabilities,
            tools: self.tools,
            identities: ids,
            flattened: self.flattened,
            hidden: self.hidden,
        }
    }
}

pub open spec fn empty_plan(capabilities: WireCapabilities) -> PlanView {
    PlanView { capabilities, tools: seq![], identities: seq![], flattened: 0, hidden: 0 }
}

/// Records an identity under `key` unless the key is taken.
pub open spec fn insert_unchecked_spec(st: PlanView, key: Seq<char>, id: ToolNameView) -> Result<
    PlanView,
    ToolPlanErrorView,
> {
    if has_key(st.identities, key) {
        Err(ToolPlanErrorView::Collision { name: key })
    } else {
        Ok(st.with_identities(insert_sorted(st.identities, key, id)))
    }
}

/// Records an identity under a wire name that the model will see, which must be valid.
pub open spec fn insert_identity_spec(st: PlanView, key: Seq<char>, id: ToolNameView) -> Result<
    PlanView,
    ToolPlanErrorView,
> {
    match wire_name_error(key) {
        Some(e) => Err(e),
        None => insert_unchecked_spec(st, key, id),
    }
}

/// The function members of a namespace, in order.
pub open spec fn function_members(members: Seq<NamespaceToolView>) -> Seq<NamespaceToolView>
    decreases members.len(),
{
    if members.len() == 0 {
        seq![]
    } else {
        let rest = function_members(members.drop_last());
        if members.last() is Function {
            rest.push(members.last())
        } else {
            rest
        }
    }
}

/// The identity of a namespace member, under its flat name.
pub open spec fn member_identity(ns: Seq<char>, member: NamespaceToolView) -> (
    Seq<char>,
    ToolNameView,
) {
    (
        flatten_name(ns, member.name()),
        ToolNameView { name: member.name(), namespace: Some(ns) },
    )
}

/// Records the identities of the members of a namespace kept whole.
pub open spec fn insert_members_spec(st: PlanView, ns: Seq<char>, members: Seq<NamespaceToolView>) -> Result<
    PlanView,
    ToolPlanErrorView,
>
    decreases members.len(),
{
    if members.len() == 0 {
        Ok(st)
    } else {
        let (key, id) = member_identity(ns, members[0]);
        match insert_unchecked_spec(st, key, id) {
            Err(e) => Err(e),
            Ok(s) => insert_members_spec(s, ns, members.drop_first()),
        }
    }
}

/// A function member renamed to its flat name.
pub open spec fn flattened_function(ns: Seq<char>, t: FunctionToolView) -> FunctionToolView {
    FunctionToolView {
        name: flatten_name(ns, t.name),
        description: t.description,
        strict: t.strict,
        defer_loading: t.defer_loading,
        parameters: t.parameters,
        output_schema: t.output_schema,
    }
}

/// Exposes the members of a namespace as flat functions; custom members are hidden.
pub open spec fn flatten_members_spec(st: PlanView, ns: Seq<char>, members: Seq<NamespaceToolView>) -> Result<
    PlanView,
    ToolPlanErrorView,
>
    decreases members.len(),
{
    if members.len() == 0 {
        Ok(st)
    } else {
        match members[0] {
            NamespaceToolView::Function(t) => {
                let wire = flatten_name(ns, t.name);
                match insert_identity_spec(st, wire, ToolNameView { name: t.name, namespace: Some(ns) }) {
                    Err(e) => Err(e),
                    Ok(s) => flatten_members_spec(
                        PlanView {
                            capabilities: s.capabilities,
                            tools: s.tools.push(ToolSpecView::Function(flattened_function(ns, t))),
                            identities: s.identities,
                            flattened: s.flattened + 1,
                            hidden: s.hidden,
                        },
                        ns,
                        members.drop_first(),
                    ),
                }
            },
            NamespaceToolView::Custom(_) => flatten_members_spec(st.add_hidden(1), ns, members.drop_first()),
        }
    }
}

/// Adds a namespace: whole on a wire with namespaces (without custom members where
/// custom tools are unsupported), else flattened.
pub open spec fn push_namespace_spec(st: PlanView, ns: NamespaceView) -> Result<PlanView, ToolPlanErrorView> {
    let caps = st.capabilities;
    if caps.namespace_tools {
        let kept = if caps.custom_tools {
            ns.tools
        } else {
            function_members(ns.tools)
        };
        let st1 = st.add_hidden((ns.tools.len() - kept.len()) as nat);
        match insert_members_spec(st1, ns.name, kept) {
            Err(e) => Err(e),
            Ok(s) => Ok(
                if kept.len() > 0 {
                    s.push_tool(
                        ToolSpecView::Namespace(
                            NamespaceView { name: ns.name, description: ns.description, tools: kept },
                        ),
                    )
                } else {
                    s
                },
            ),
        }
    } else {
        flatten_members_spec(st, ns.name, ns.tools)
    }
}

/// Adds one tool specification to the plan.
pub open spec fn step_spec(st: PlanView, spec: ToolSpecView) -> Result<PlanView, ToolPlanErrorView> {
    match spec {
        ToolSpecView::Function(t) => match insert_identity_spec(
            st,
            t.name,
            ToolNameView { name: t.name, namespace: None },
        ) {
            Err(e) => Err(e),
            Ok(s) => Ok(s.push_tool(spec)),
        },
        ToolSpecView::Namespace(ns) => push_namespace_spec(st, ns),
        ToolSpecView::Freeform(t) => if !st.capabilities.custom_tools {
            Ok(st.add_hidden(1))
        } else {
            match insert_identity_spec(st, t.name, ToolNameView { name: t.name, namespace: None }) {
                Err(e) => Err(e),
                Ok(s) => Ok(s.push_tool(spec)),
            }
        },
        ToolSpecView::ToolSearch { .. } => if st.capabilities.tool_search {
            Ok(st.push_tool(spec))
        } else {
            Ok(st.add_hidden(1))
        },
        ToolSpecView::WebSearch { .. } => if st.capabilities.built_in_tools {
            Ok(st.push_tool(spec))
        } else {
            Ok(st.add_hidden(1))
        },
    }
}

/// Adds the tool specifications in order, stopping at the first error.
pub open spec fn plan_from(st: PlanView, specs: Seq<ToolSpecView>) -> Result<PlanView, ToolPlanErrorView>
    decreases specs.len(),
{
    if specs.len() == 0 {
        Ok(st)
    } else {
        match step_spec(st, specs[0]) {
            Err(e) => Err(e),
            Ok(s) => plan_from(s, specs.drop_first()),
        }
    }
}

/// The plan that `ToolPlan::new` makes of `specs` for a wire with `capabilities`.
pub open spec fn plan_spec(specs: Seq<ToolSpecView>, capabilities: WireCapabilities) -> Result<
    PlanView,
    ToolPlanErrorView,
> {
    plan_from(empty_plan(capabilities), specs)
}

/// How many tools a specification stands for: the members of a namespace, one otherwise.
pub open spec fn spec_units(spec: ToolSpecView) -> nat {
    match spec {
        ToolSpecView::Namespace(ns) => ns.tools.len(),
        _ => 1,
    }
}

pub open spec fn total_units(specs: Seq<ToolSpecView>) -> nat
    decreases specs.len(),
{
    if specs.len() == 0 {
        0
    } else {
        total_units(specs.drop_last()) + spec_units(specs.last())
    }
}


/// The abstract identities of a list of (wire name, identity) pairs.
pub open spec fn ids_view(v: Seq<(String, ToolName)>) -> Seq<(Seq<char>, ToolNameView)> {
    v.map_values(|p: (String, ToolName)| (p.0@, p.1@))
}

/// A tool kind the plan's wire can encode.
pub open spec fn tool_allowed(caps: WireCapabilities, tool: ToolSpecView) -> bool {
    match tool {
        ToolSpecView::Function(_) => true,
        ToolSpecView::Namespace(ns) => caps.namespace_tools && (!caps.custom_tools ==> forall|k: int|
            0 <= k < ns.tools.len() ==> #[trigger] ns.tools[k] is Function),
        ToolSpecView::Freeform(_) => caps.custom_tools,
        ToolSpecView::ToolSearch { .. } => caps.tool_search,
        ToolSpecView::WebSearch { .. } => caps.built_in_tools,
    }
}

pub open spec fn respects_capabilities(v: PlanView) -> bool {
    forall|i: int| 0 <= i < v.tools.len() ==> tool_allowed(v.capabilities, #[trigger] v.tools[i])
}

/// A well-formed plan: identities sorted by key, each under its own flat name, and no
/// tool that the wire cannot encode.
pub open spec fn plan_wf(v: PlanView) -> bool {
    &&& keys_sorted(v.identities)
    &&& keys_match(v.identities)
    &&& respects_capabilities(v)
    &&& tools_decodable(v)
}

/// The wire names under which the model can call a visible tool all have an identity.
pub open spec fn tool_decodable(ids: Seq<(Seq<char>, ToolNameView)>, tool: ToolSpecView) -> bool {
    match tool {
        ToolSpecView::Function(t) => has_key(ids, t.name),
        ToolSpecView::Freeform(t) => has_key(ids, t.name),
        ToolSpecView::Namespace(ns) => forall|k: int|
            0 <= k < ns.tools.len() ==> has_key(ids, flatten_name(ns.name, #[trigger] ns.tools[k].name())),
        _ => true,
    }
}

pub open spec fn tools_decodable(v: PlanView) -> bool {
    forall|i: int| 0 <= i < v.tools.len() ==> tool_decodable(v.identities, #[trigger] v.tools[i])
}

/// A finalized model-visible tool surface plus the identities needed to decode model
/// calls back into canonical tool names.
#[derive(Clone, Debug, PartialEq, Eq)]
pub struct ToolPlan {
    capabilities: WireCapabilities,
    tools: Vec<ToolSpec>,
    identities: Vec<(String, ToolName)>,
    flattened_tool_count: usize,
    hidden_tool_count: usize,
}

impl View for ToolPlan {
    type V = PlanView;

    closed spec fn view(&self) -> PlanView {
        PlanView {
            capabilities: self.capabilities,
            tools: specs_view(self.tools@),
            identities: ids_view(self.identities@),
            flattened: self.flattened_tool_count as nat,
            hidden: self.hidden_tool_count as nat,
        }
    }
}

/// The flat function name of tool `name` in `namespace`.
fn flatten_tool_name(namespace: &str, name: &str) -> (flat: String)
    ensures
        flat@ == flatten_name(namespace@, name@),
{
    if str_eq(namespace, crate::protocol::DEFAULT_FUNCTION_NAMESPACE) {
        String::from_str(name)
    } else {
        let mut flat = String::from_str(namespace);
        flat.append(FLAT_TOOL_NAME_SEPARATOR);
        flat.append(name);
        flat
    }
}

/// Checks that a wire name is non-empty and within the length limit.
fn validate_wire_name(name: &str) -> (r: Result<(), ToolPlanError>)
    ensures
        match wire_name_error(name@) {
            None => r is Ok,
            Some(e) => r matches Err(x) && x@ == e,
        },
{
    if name.is_empty() {
        return Err(ToolPlanError::EmptyName);
    }
    let bytes = name.as_bytes();
    assert(name.spec_bytes() == encode_utf8(name@));
    if bytes.len() > MAX_FUNCTION_NAME_LEN {
        return Err(
            ToolPlanError::NameTooLong {
                name: String::from_str(name),
                max_len: MAX_FUNCTION_NAME_LEN,
            },
        );
    }
    Ok(())
}

proof fn lemma_insert_pos(ids: Seq<(Seq<char>, ToolNameView)>, key: Seq<char>, from: int)
    requires
        0 <= from <= ids.len(),
    ensures
        from <= insert_pos(ids, key, from) <= ids.len(),
        forall|i: int| from <= i < insert_pos(ids, key, from) ==> !chars_lt(key, #[trigger] ids[i].0),
        insert_pos(ids, key, from) < ids.len() ==> chars_lt(key, ids[insert_pos(ids, key, from)].0),
    decreases ids.len() - from,
{
    if from < ids.len() && !chars_lt(key, ids[from].0) {
        lemma_insert_pos(ids, key, from + 1);
    }
}

/// Inserting a new key at its place keeps the identities sorted.
proof fn lemma_insert_sorted(ids: Seq<(Seq<char>, ToolNameView)>, key: Seq<char>, id: ToolNameView)
    requires
        keys_sorted(ids),
        !has_key(ids, key),
    ensures
        keys_sorted(insert_sorted(ids, key, id)),
        insert_sorted(ids, key, id).len() == ids.len() + 1,
        forall|i: int|
            0 <= i < insert_sorted(ids, key, id).len() ==> (#[trigger] insert_sorted(ids, key, id)[i]
                == (key, id) || ids.contains(insert_sorted(ids, key, id)[i])),
        forall|i: int| 0 <= i < ids.len() ==> insert_sorted(ids, key, id).contains(#[trigger] ids[i]),
        insert_sorted(ids, key, id).contains((key, id)),
{
    let p = insert_pos(ids, key, 0);
    lemma_insert_pos(ids, key, 0);
    let r = insert_sorted(ids, key, id);
    ids.insert_ensures(p, (key, id));
    assert forall|i: int| 0 <= i < p implies chars_lt(#[trigger] ids[i].0, key) by {
        assert(ids[i].0 != key);
        lemma_chars_lt_total(ids[i].0, key);
    }
    assert forall|i: int| p <= i < ids.len() implies chars_lt(key, #[trigger] ids[i].0) by {
        if i > p {
            lemma_chars_lt_transitive(key, ids[p].0, ids[i].0);
        }
    }
    assert forall|i: int, j: int| 0 <= i < j < r.len() implies chars_lt(#[trigger] r[i].0, #[trigger] r[j].0) by {
        if j < p {
            assert(r[i] == ids[i] && r[j] == ids[j]);
        } else if j == p {
            assert(r[i] == ids[i]);
        } else if i < p {
            assert(r[i] == ids[i] && r[j] == ids[j - 1]);
            lemma_chars_lt_transitive(ids[i].0, key, ids[j - 1].0);
        } else if i == p {
            assert(r[j] == ids[j - 1]);
        } else {
            assert(r[i] == ids[i - 1] && r[j] == ids[j - 1]);
        }
    }
    assert forall|i: int| 0 <= i < r.len() implies (#[trigger] r[i] == (key, id) || ids.contains(r[i])) by {
        if i < p {
            assert(r[i] == ids[i]);
        } else if i > p {
            assert(r[i] == ids[i - 1]);
        }
    }
    assert forall|i: int| 0 <= i < ids.len() implies r.contains(#[trigger] ids[i]) by {
        if i < p {
            assert(r[i] == ids[i]);
        } else {
            assert(r[i + 1] == ids[i]);
        }
    }
    assert(r[p] == (key, id));
}

impl ToolPlan {
    /// The plan is well formed.
    pub open spec fn wf(&self) -> bool {
        plan_wf(self@)
    }

    /// Records an identity under `key` unless the key is taken.
    fn insert_identity_unchecked(&mut self, key: &str, identity: ToolName) -> (r: Result<
        (),
        ToolPlanError,
    >)
        requires
            keys_sorted(old(self)@.identities),
        ensures
            match insert_unchecked_spec(old(self)@, key@, identity@) {
                Ok(v) => r is Ok && final(self)@ == v,
                Err(e) => r matches Err(x) && x@ == e,
            },
    {
        let ghost ids = self@.identities;
        let key_chars = chars_of(key);
        let n = self.identities.len();
        let mut i: usize = 0;
        while i < n
            invariant
                n == self.identities@.len(),
                ids == ids_view(self.identities@),
                ids == self@.identities,
                i <= n,
                forall|j: int| 0 <= j < i ==> #[trigger] ids[j].0 != key@,
            decreases n - i,
        {
            if str_eq(self.identities[i].0.as_str(), key) {
                assert(ids[i as int].0 == key@);
                return Err(ToolPlanError::Collision { name: String::from_str(key) });
            }
            i = i + 1;
        }
        assert(!has_key(ids, key@));
        let mut pos: usize = 0;
        while pos < n
            invariant
                n == self.identities@.len(),
                ids == ids_view(self.identities@),
                key_chars@ == key@,
                pos <= n,
                insert_pos(ids, key@, 0) == insert_pos(ids, key@, pos as int),
            ensures
                pos <= n,
                insert_pos(ids, key@, 0) == pos as int,
            decreases n - pos,
        {
            let existing = chars_of(self.identities[pos].0.as_str());
            if chars_less(key_chars.as_slice(), existing.as_slice()) {
                break;
            }
            pos = pos + 1;
        }
        let ghost old_plan = self@;
        let ghost old_vec = self.identities@;
        let entry = (String::from_str(key), identity);
        assert((entry.0@, entry.1@) == (key@, identity@));
        self.identities.insert(pos, entry);
        proof {
            old_vec.insert_ensures(pos as int, entry);
            ids.insert_ensures(pos as int, (key@, identity@));
            assert(self.identities@ == old_vec.insert(pos as int, entry));
            assert(ids_view(self.identities@) =~= insert_sorted(ids, key@, identity@));
            assert(self@ == old_plan.with_identities(insert_sorted(ids, key@, identity@)));
        }
        Ok(())
    }

    /// Records an identity under a wire name the model will see.
    fn insert_identity(&mut self, key: &str, identity: ToolName) -> (r: Result<(), ToolPlanError>)
        requires
            keys_sorted(old(self)@.identities),
        ensures
            match insert_identity_spec(old(self)@, key@, identity@) {
                Ok(v) => r is Ok && final(self)@ == v,
                Err(e) => r matches Err(x) && x@ == e,
            },
    {
        match validate_wire_name(key) {
            Err(e) => Err(e),
            Ok(()) => self.insert_identity_unchecked(key, identity),
        }
    }
}


/// Identities only grow, so what was decodable stays decodable.
proof fn lemma_decodable_grow(
    ids1: Seq<(Seq<char>, ToolNameView)>,
    ids2: Seq<(Seq<char>, ToolNameView)>,
    tools: Seq<ToolSpecView>,
)
    requires
        forall|i: int| 0 <= i < ids1.len() ==> ids2.contains(#[trigger] ids1[i]),
        forall|i: int| 0 <= i < tools.len() ==> tool_decodable(ids1, #[trigger] tools[i]),
    ensures
        forall|i: int| 0 <= i < tools.len() ==> tool_decodable(ids2, #[trigger] tools[i]),
{
    assert forall|key: Seq<char>| has_key(ids1, key) implies has_key(ids2, key) by {
        let i = choose|i: int| 0 <= i < ids1.len() && #[trigger] ids1[i].0 == key;
        assert(ids2.contains(ids1[i]));
        let j = choose|j: int| 0 <= j < ids2.len() && ids2[j] == ids1[i];
        assert(ids2[j].0 == key);
    }
    assert forall|i: int| 0 <= i < tools.len() implies tool_decodable(ids2, #[trigger] tools[i]) by {
        assert(tool_decodable(ids1, tools[i]));
        match tools[i] {
            ToolSpecView::Namespace(ns) => {
                assert forall|k: int| 0 <= k < ns.tools.len() implies has_key(
                    ids2,
                    flatten_name(ns.name, #[trigger] ns.tools[k].name()),
                ) by {
                    assert(has_key(ids1, flatten_name(ns.name, ns.tools[k].name())));
                }
            },
            _ => {},
        }
    }
}

proof fn lemma_insert_unchecked_wf(st: PlanView, key: Seq<char>, id: ToolNameView)
    requires
        plan_wf(st),
        key == identity_key(id),
    ensures
        insert_unchecked_spec(st, key, id) matches Ok(v) ==> plan_wf(v) && v.capabilities
            == st.capabilities && v.tools == st.tools && v.hidden == st.hidden && v.flattened
            == st.flattened && has_key(v.identities, key) && (forall|i: int|
            0 <= i < st.identities.len() ==> v.identities.contains(#[trigger] st.identities[i])),
{
    if !has_key(st.identities, key) {
        let ids = st.identities;
        lemma_insert_sorted(ids, key, id);
        let r = insert_sorted(ids, key, id);
        assert forall|i: int| 0 <= i < r.len() implies #[trigger] r[i].0 == identity_key(r[i].1) by {
            if r[i] != (key, id) {
                let j = choose|j: int| 0 <= j < ids.len() && ids[j] == r[i];
                assert(ids[j].0 == identity_key(ids[j].1));
            }
        }
        let v = st.with_identities(r);
        assert(respects_capabilities(v)) by {
            assert forall|i: int| 0 <= i < v.tools.len() implies tool_allowed(
                v.capabilities,
                #[trigger] v.tools[i],
            ) by {
                assert(st.tools[i] == v.tools[i]);
            }
        }
        lemma_decodable_grow(ids, r, st.tools);
        let j = choose|j: int| 0 <= j < r.len() && r[j] == (key, id);
        assert(r[j].0 == key);
    }
}

proof fn lemma_insert_identity_wf(st: PlanView, key: Seq<char>, id: ToolNameView)
    requires
        plan_wf(st),
        key == identity_key(id),
    ensures
        insert_identity_spec(st, key, id) matches Ok(v) ==> plan_wf(v) && v.capabilities
            == st.capabilities && v.tools == st.tools && v.hidden == st.hidden && v.flattened
            == st.flattened && has_key(v.identities, key),
{
    lemma_insert_unchecked_wf(st, key, id);
}

/// Pushing a tool the wire can encode, and whose names all have identities, keeps a plan
/// well formed.
proof fn lemma_push_allowed(st: PlanView, tool: ToolSpecView)
    requires
        plan_wf(st),
        tool_allowed(st.capabilities, tool),
        tool_decodable(st.identities, tool),
    ensures
        plan_wf(st.push_tool(tool)),
{
    let v = st.push_tool(tool);
    assert forall|i: int| 0 <= i < v.tools.len() implies tool_allowed(
        v.capabilities,
        #[trigger] v.tools[i],
    ) && tool_decodable(v.identities, v.tools[i]) by {
        if i < st.tools.len() {
            assert(st.tools[i] == v.tools[i]);
        }
    }
}

proof fn lemma_add_hidden_wf(st: PlanView, n: nat)
    requires
        plan_wf(st),
    ensures
        plan_wf(st.add_hidden(n)),
{
    let v = st.add_hidden(n);
    assert forall|i: int| 0 <= i < v.tools.len() implies tool_allowed(
        v.capabilities,
        #[trigger] v.tools[i],
    ) && tool_decodable(v.identities, v.tools[i]) by {
        assert(st.tools[i] == v.tools[i]);
    }
}

proof fn lemma_insert_members_wf(st: PlanView, ns: Seq<char>, members: Seq<NamespaceToolView>)
    requires
        plan_wf(st),
    ensures
        insert_members_spec(st, ns, members) matches Ok(v) ==> plan_wf(v) && v.capabilities
            == st.capabilities && v.tools == st.tools && v.hidden == st.hidden && v.flattened
            == st.flattened && (forall|k: int|
            0 <= k < members.len() ==> has_key(v.identities, flatten_name(ns, #[trigger] members[k].name()))),
    decreases members.len(),
{
    if members.len() > 0 {
        let (key, id) = member_identity(ns, members[0]);
        lemma_insert_unchecked_wf(st, key, id);
        if let Ok(s) = insert_unchecked_spec(st, key, id) {
            lemma_insert_members_wf(s, ns, members.drop_first());
            if let Ok(v) = insert_members_spec(s, ns, members.drop_first()) {
                let rest = members.drop_first();
                assert forall|k: int| 0 <= k < members.len() implies has_key(
                    v.identities,
                    flatten_name(ns, #[trigger] members[k].name()),
                ) by {
                    if k == 0 {
                        lemma_insert_members_keep(s, ns, rest, key);
                    } else {
                        assert(members[k] == rest[k - 1]);
                    }
                }
            }
        }
    }
}

/// Recording the members of a namespace keeps the keys already recorded.
proof fn lemma_insert_members_keep(
    st: PlanView,
    ns: Seq<char>,
    members: Seq<NamespaceToolView>,
    key: Seq<char>,
)
    requires
        has_key(st.identities, key),
        keys_sorted(st.identities),
    ensures
        insert_members_spec(st, ns, members) matches Ok(v) ==> has_key(v.identities, key),
    decreases members.len(),
{
    if members.len() > 0 {
        let (k2, id2) = member_identity(ns, members[0]);
        if let Ok(s) = insert_unchecked_spec(st, k2, id2) {
            lemma_insert_sorted(st.identities, k2, id2);
            let i = choose|i: int| 0 <= i < st.identities.len() && #[trigger] st.identities[i].0 == key;
            assert(s.identities.contains(st.identities[i]));
            let j = choose|j: int| 0 <= j < s.identities.len() && s.identities[j] == st.identities[i];
            assert(s.identities[j].0 == key);
            lemma_insert_members_keep(s, ns, members.drop_first(), key);
        }
    }
}

proof fn lemma_flatten_members_wf(st: PlanView, ns: Seq<char>, members: Seq<NamespaceToolView>)
    requires
        plan_wf(st),
    ensures
        flatten_members_spec(st, ns, members) matches Ok(v) ==> plan_wf(v) && v.capabilities
            == st.capabilities,
    decreases members.len(),
{
    if members.len() > 0 {
        match members[0] {
            NamespaceToolView::Function(t) => {
                let wire = flatten_name(ns, t.name);
                let id = ToolNameView { name: t.name, namespace: Some(ns) };
                lemma_insert_identity_wf(st, wire, id);
                if let Ok(s) = insert_identity_spec(st, wire, id) {
                    let pushed = s.push_tool(ToolSpecView::Function(flattened_function(ns, t)));
                    lemma_push_allowed(s, ToolSpecView::Function(flattened_function(ns, t)));
                    let next = PlanView {
                        capabilities: s.capabilities,
                        tools: pushed.tools,
                        identities: s.identities,
                        flattened: s.flattened + 1,
                        hidden: s.hidden,
                    };
                    assert(plan_wf(next)) by {
                        assert forall|i: int| 0 <= i < next.tools.len() implies tool_allowed(
                            next.capabilities,
                            #[trigger] next.tools[i],
                        ) && tool_decodable(next.identities, next.tools[i]) by {
                            assert(pushed.tools[i] == next.tools[i]);
                        }
                    }
                    lemma_flatten_members_wf(next, ns, members.drop_first());
                }
            },
            NamespaceToolView::Custom(_) => {
                lemma_add_hidden_wf(st, 1);
                lemma_flatten_members_wf(st.add_hidden(1), ns, members.drop_first());
            },
        }
    }
}

proof fn lemma_function_members(members: Seq<NamespaceToolView>)
    ensures
        function_members(members).len() <= members.len(),
        forall|k: int|
            0 <= k < function_members(members).len() ==> #[trigger] function_members(members)[k] is Function,
    decreases members.len(),
{
    if members.len() > 0 {
        lemma_function_members(members.drop_last());
    }
}

proof fn lemma_step_wf(st: PlanView, spec: ToolSpecView)
    requires
        plan_wf(st),
    ensures
        step_spec(st, spec) matches Ok(v) ==> plan_wf(v) && v.capabilities == st.capabilities,
{
    match spec {
        ToolSpecView::Function(t) => {
            let id = ToolNameView { name: t.name, namespace: None };
            lemma_insert_identity_wf(st, t.name, id);
            if let Ok(s) = insert_identity_spec(st, t.name, id) {
                lemma_push_allowed(s, spec);
            }
        },
        ToolSpecView::Namespace(ns) => {
            let caps = st.capabilities;
            if caps.namespace_tools {
                let kept = if caps.custom_tools {
                    ns.tools
                } else {
                    function_members(ns.tools)
                };
                lemma_function_members(ns.tools);
                let st1 = st.add_hidden((ns.tools.len() - kept.len()) as nat);
                lemma_add_hidden_wf(st, (ns.tools.len() - kept.len()) as nat);
                lemma_insert_members_wf(st1, ns.name, kept);
                if let Ok(s) = insert_members_spec(st1, ns.name, kept) {
                    if kept.len() > 0 {
                        lemma_push_allowed(
                            s,
                            ToolSpecView::Namespace(
                                NamespaceView { name: ns.name, description: ns.description, tools: kept },
                            ),
                        );
                    }
                }
            } else {
                lemma_flatten_members_wf(st, ns.name, ns.tools);
            }
        },
        ToolSpecView::Freeform(t) => {
            if !st.capabilities.custom_tools {
                lemma_add_hidden_wf(st, 1);
            } else {
                let id = ToolNameView { name: t.name, namespace: None };
                lemma_insert_identity_wf(st, t.name, id);
                if let Ok(s) = insert_identity_spec(st, t.name, id) {
                    lemma_push_allowed(s, spec);
                }
            }
        },
        _ => {
            lemma_add_hidden_wf(st, 1);
            if tool_allowed(st.capabilities, spec) {
                lemma_push_allowed(st, spec);
            }
        },
    }
}

/// Every plan that `plan_from` makes from a well-formed plan is well formed.
proof fn lemma_plan_from_wf(st: PlanView, specs: Seq<ToolSpecView>)
    requires
        plan_wf(st),
    ensures
        plan_from(st, specs) matches Ok(v) ==> plan_wf(v) && v.capabilities == st.capabilities,
    decreases specs.len(),
{
    if specs.len() > 0 {
        lemma_step_wf(st, specs[0]);
        if let Ok(s) = step_spec(st, specs[0]) {
            lemma_plan_from_wf(s, specs.drop_first());
        }
    }
}


/// The counts a plan keeps grow by at most the tool units of what is added.
proof fn lemma_insert_members_counts(st: PlanView, ns: Seq<char>, members: Seq<NamespaceToolView>)
    ensures
        insert_members_spec(st, ns, members) matches Ok(v) ==> v.hidden == st.hidden && v.flattened
            == st.flattened && v.capabilities == st.capabilities && v.tools == st.tools,
    decreases members.len(),
{
    if members.len() > 0 {
        let (key, id) = member_identity(ns, members[0]);
        if let Ok(s) = insert_unchecked_spec(st, key, id) {
            lemma_insert_members_counts(s, ns, members.drop_first());
        }
    }
}

proof fn lemma_flatten_members_counts(st: PlanView, ns: Seq<char>, members: Seq<NamespaceToolView>)
    ensures
        flatten_members_spec(st, ns, members) matches Ok(v) ==> v.hidden + v.flattened <= st.hidden
            + st.flattened + members.len(),
    decreases members.len(),
{
    if members.len() > 0 {
        match members[0] {
            NamespaceToolView::Function(t) => {
                let wire = flatten_name(ns, t.name);
                let id = ToolNameView { name: t.name, namespace: Some(ns) };
                if let Ok(s) = insert_identity_spec(st, wire, id) {
                    let next = PlanView {
                        capabilities: s.capabilities,
                        tools: s.tools.push(ToolSpecView::Function(flattened_function(ns, t))),
                        identities: s.identities,
                        flattened: s.flattened + 1,
                        hidden: s.hidden,
                    };
                    lemma_flatten_members_counts(next, ns, members.drop_first());
                }
            },
            NamespaceToolView::Custom(_) => {
                lemma_flatten_members_counts(st.add_hidden(1), ns, members.drop_first());
            },
        }
    }
}

proof fn lemma_step_counts(st: PlanView, spec: ToolSpecView)
    ensures
        step_spec(st, spec) matches Ok(v) ==> v.hidden + v.flattened <= st.hidden + st.flattened
            + spec_units(spec),
{
    match spec {
        ToolSpecView::Namespace(ns) => {
            let caps = st.capabilities;
            if caps.namespace_tools {
                let kept = if caps.custom_tools {
                    ns.tools
                } else {
                    function_members(ns.tools)
                };
                lemma_function_members(ns.tools);
                let st1 = st.add_hidden((ns.tools.len() - kept.len()) as nat);
                lemma_insert_members_counts(st1, ns.name, kept);
            } else {
                lemma_flatten_members_counts(st, ns.name, ns.tools);
            }
        },
        _ => {},
    }
}

impl ToolPlan {
    fn push_passthrough(&mut self, spec: ToolSpec)
        ensures
            final(self)@ == old(self)@.push_tool(spec@),
    {
        self.tools.push(spec);
        assert(specs_view(self.tools@) =~= specs_view(old(self).tools@).push(spec@));
    }

    fn push_function(&mut self, wire_name: String, tool: FunctionTool, identity: ToolName) -> (r:
        Result<(), ToolPlanError>)
        requires
            keys_sorted(old(self)@.identities),
        ensures
            match insert_identity_spec(old(self)@, wire_name@, identity@) {
                Ok(v) => r is Ok && final(self)@ == v.push_tool(ToolSpecView::Function(tool@)),
                Err(e) => r matches Err(x) && x@ == e,
            },
    {
        match self.insert_identity(wire_name.as_str(), identity) {
            Err(e) => Err(e),
            Ok(()) => {
                self.push_passthrough(ToolSpec::Function(tool));
                Ok(())
            },
        }
    }

    fn push_freeform(&mut self, tool: crate::tool_spec::FreeformTool) -> (r: Result<(), ToolPlanError>)
        requires
            keys_sorted(old(self)@.identities),
            old(self)@.hidden + old(self)@.flattened < usize::MAX,
        ensures
            match step_spec(old(self)@, ToolSpecView::Freeform(tool@)) {
                Ok(v) => r is Ok && final(self)@ == v,
                Err(e) => r matches Err(x) && x@ == e,
            },
    {
        if !self.capabilities.custom_tools {
            self.hidden_tool_count = self.hidden_tool_count + 1;
            return Ok(());
        }
        let identity = ToolName::new(None, tool.name.clone());
        let ghost spec = ToolSpecView::Freeform(tool@);
        match self.insert_identity(tool.name.as_str(), identity) {
            Err(e) => Err(e),
            Ok(()) => {
                self.push_passthrough(ToolSpec::Freeform(tool));
                Ok(())
            },
        }
    }

    fn push_namespace(&mut self, namespace: Namespace) -> (r: Result<(), ToolPlanError>)
        requires
            keys_sorted(old(self)@.identities),
            old(self)@.hidden + old(self)@.flattened + namespace@.tools.len() <= usize::MAX,
        ensures
            match push_namespace_spec(old(self)@, namespace@) {
                Ok(v) => r is Ok && final(self)@ == v,
                Err(e) => r matches Err(x) && x@ == e,
            },
    {
        let ghost ns = namespace@;
        let ns_name = namespace.name;
        let ns_description = namespace.description;
        let members = namespace.tools;
        if self.capabilities.namespace_tools {
            let custom = self.capabilities.custom_tools;
            let mut kept: Vec<NamespaceTool> = Vec::new();
            let mut hidden: usize = 0;
            let n = members.len();
            let ghost mv = crate::tool_spec::members_view(members@);
            for m in it: members
                invariant
                    it.seq() == members@,
                    mv == crate::tool_spec::members_view(members@),
                    n == members@.len(),
                    hidden + crate::tool_spec::members_view(kept@).len() == it.index(),
                    crate::tool_spec::members_view(kept@) == if custom {
                        mv.take(it.index() as int)
                    } else {
                        function_members(mv.take(it.index() as int))
                    },
            {
                let ghost idx = it.index();
                proof {
                    assert(mv.take(idx + 1).drop_last() =~= mv.take(idx as int));
                    assert(mv.take(idx + 1).last() == m@);
                }
                let is_function = match &m {
                    NamespaceTool::Function(_) => true,
                    NamespaceTool::Custom(_) => false,
                };
                if custom || is_function {
                    kept.push(m);
                } else {
                    hidden = hidden + 1;
                }
                proof {
                    assert(crate::tool_spec::members_view(kept@) =~= if custom {
                        mv.take(idx + 1)
                    } else {
                        function_members(mv.take(idx + 1))
                    });
                }
            }
            assert(mv.take(n as int) =~= mv);
            assert(ns.tools == mv);
            let ghost kv = crate::tool_spec::members_view(kept@);
            assert(kv == if custom {
                ns.tools
            } else {
                function_members(ns.tools)
            });
            proof {
                lemma_function_members(mv);
            }
            assert(kv.skip(0) =~= kv);
            self.hidden_tool_count = self.hidden_tool_count + hidden;
            let ghost st1 = self@;
            assert(st1 == old(self)@.add_hidden((ns.tools.len() - kv.len()) as nat));
            let k = kept.len();
            let ghost expected = match insert_members_spec(st1, ns.name, kv) {
                Err(e) => Err(e),
                Ok(s) => Ok(
                    if kv.len() > 0 {
                        s.push_tool(
                            ToolSpecView::Namespace(
                                NamespaceView { name: ns.name, description: ns.description, tools: kv },
                            ),
                        )
                    } else {
                        s
                    },
                ),
            };
            assert(push_namespace_spec(old(self)@, ns) == expected);
            let mut i: usize = 0;
            while i < k
                invariant
                    k == kept@.len(),
                    ns_name@ == ns.name,
                    ns == namespace@,
                    push_namespace_spec(old(self)@, ns) == expected,
                    expected == match insert_members_spec(st1, ns.name, kv) {
                        Err(e) => Err(e),
                        Ok(s) => Ok(
                            if kv.len() > 0 {
                                s.push_tool(
                                    ToolSpecView::Namespace(
                                        NamespaceView {
                                            name: ns.name,
                                            description: ns.description,
                                            tools: kv,
                                        },
                                    ),
                                )
                            } else {
                                s
                            },
                        ),
                    },
                    kv == crate::tool_spec::members_view(kept@),
                    i <= k,
                    keys_sorted(self@.identities),
                    insert_members_spec(st1, ns_name@, kv) == insert_members_spec(
                        self@,
                        ns_name@,
                        kv.skip(i as int),
                    ),
                decreases k - i,
            {
                let member_name = match &kept[i] {
                    NamespaceTool::Function(t) => t.name.as_str(),
                    NamespaceTool::Custom(t) => t.name.as_str(),
                };
                assert(member_name@ == kv[i as int].name());
                let key = flatten_tool_name(ns_name.as_str(), member_name);
                let identity = ToolName::new(Some(ns_name.clone()), String::from_str(member_name));
                let ghost before = self@;
                assert(kv.skip(i as int)[0] == kv[i as int]);
                assert(kv.skip(i as int).drop_first() =~= kv.skip(i + 1));
                assert(member_identity(ns.name, kv.skip(i as int)[0]) == (key@, identity@));
                match self.insert_identity_unchecked(key.as_str(), identity) {
                    Err(e) => {
                        return Err(e);
                    },
                    Ok(()) => {},
                }
                proof {
                    if let Ok(v) = insert_unchecked_spec(before, key@, identity@) {
                        lemma_insert_sorted(before.identities, key@, identity@);
                    }
                }
                i = i + 1;
            }
            assert(kv.skip(k as int) =~= Seq::<NamespaceToolView>::empty());
            if k > 0 {
                let kept_namespace = Namespace {
                    name: ns_name,
                    description: ns_description,
                    tools: kept,
                };
                assert(kept_namespace@ == (NamespaceView {
                    name: ns.name,
                    description: ns.description,
                    tools: kv,
                }));
                self.push_passthrough(ToolSpec::Namespace(kept_namespace));
            }
            return Ok(());
        }
        let ghost mv = crate::tool_spec::members_view(members@);
        assert(ns.tools == mv);
        assert(push_namespace_spec(old(self)@, ns) == flatten_members_spec(old(self)@, ns.name, mv));
        let n = members.len();
        let ghost start = self@.hidden + self@.flattened;
        assert(mv.skip(0) =~= mv);
        for m in it: members
            invariant
                it.seq() == members@,
                mv == crate::tool_spec::members_view(members@),
                n == members@.len(),
                ns_name@ == ns.name,
                ns == namespace@,
                push_namespace_spec(old(self)@, ns) == flatten_members_spec(old(self)@, ns.name, mv),
                keys_sorted(self@.identities),
                start + n <= usize::MAX,
                self@.hidden + self@.flattened <= start + it.index(),
                flatten_members_spec(old(self)@, ns.name, mv) == flatten_members_spec(
                    self@,
                    ns.name,
                    mv.skip(it.index() as int),
                ),
        {
            let ghost idx = it.index();
            let ghost before = self@;
            assert(mv.skip(idx as int)[0] == m@);
            assert(mv.skip(idx as int).drop_first() =~= mv.skip(idx + 1));
            match m {
                NamespaceTool::Function(tool) => {
                    let wire_name = flatten_tool_name(ns_name.as_str(), tool.name.as_str());
                    let identity = ToolName::new(Some(ns_name.clone()), tool.name.clone());
                    let ghost tv = tool@;
                    let renamed = FunctionTool {
                        name: wire_name.clone(),
                        description: tool.description,
                        strict: tool.strict,
                        defer_loading: tool.defer_loading,
                        parameters: tool.parameters,
                        output_schema: tool.output_schema,
                    };
                    assert(renamed@ == flattened_function(ns.name, tv));
                    match self.push_function(wire_name, renamed, identity) {
                        Err(e) => {
                            return Err(e);
                        },
                        Ok(()) => {},
                    }
                    proof {
                        if let Ok(v) = insert_identity_spec(before, flatten_name(ns.name, tv.name), identity@) {
                            lemma_insert_sorted(before.identities, flatten_name(ns.name, tv.name), identity@);
                        }
                    }
                    self.flattened_tool_count = self.flattened_tool_count + 1;
                },
                NamespaceTool::Custom(_) => {
                    self.hidden_tool_count = self.hidden_tool_count + 1;
                },
            }
        }
        assert(mv.skip(n as int) =~= Seq::<NamespaceToolView>::empty());
        Ok(())
    }
}


proof fn lemma_total_units_prefix(s: Seq<ToolSpecView>, k: int)
    requires
        0 <= k <= s.len(),
    ensures
        total_units(s.take(k)) <= total_units(s),
    decreases s.len(),
{
    if k < s.len() {
        assert(s.drop_last().take(k) =~= s.take(k));
        lemma_total_units_prefix(s.drop_last(), k);
    } else {
        assert(s.take(k) =~= s);
    }
}

/// Identities that are the same once missing namespaces are defaulted have the same key.
pub proof fn lemma_identity_key_normalized(id: ToolNameView)
    ensures
        identity_key(id) == identity_key(id.with_default_namespace()),
{
}

impl ToolPlan {
    /// Applies capability-driven filtering and namespace flattening.
    pub fn new(specs: Vec<ToolSpec>, capabilities: WireCapabilities) -> (result: Result<
        ToolPlan,
        ToolPlanError,
    >)
        requires
            total_units(specs_view(specs@)) <= usize::MAX,
        ensures
            match plan_spec(specs_view(specs@), capabilities) {
                Ok(v) => result matches Ok(plan) && plan@ == v && plan.wf(),
                Err(e) => result matches Err(x) && x@ == e,
            },
    {
        let mut plan = ToolPlan {
            capabilities,
            tools: Vec::new(),
            identities: Vec::new(),
            flattened_tool_count: 0,
            hidden_tool_count: 0,
        };
        let ghost sv = specs_view(specs@);
        proof {
            assert(plan@.tools =~= Seq::<ToolSpecView>::empty());
            assert(plan@.identities =~= Seq::<(Seq<char>, ToolNameView)>::empty());
            assert(plan@ == empty_plan(capabilities));
            assert(sv.skip(0) =~= sv);
            assert(sv.take(0) =~= Seq::<ToolSpecView>::empty());
        }
        for spec in it: specs
            invariant
                it.seq() == specs@,
                sv == specs_view(specs@),
                total_units(sv) <= usize::MAX,
                plan_spec(sv, capabilities) == plan_from(plan@, sv.skip(it.index() as int)),
                plan_wf(plan@),
                plan@.capabilities == capabilities,
                plan@.hidden + plan@.flattened <= total_units(sv.take(it.index() as int)),
        {
            let ghost idx = it.index() as int;
            let ghost before = plan@;
            proof {
                assert(sv.skip(idx)[0] == sv[idx]);
                assert(sv.skip(idx).drop_first() =~= sv.skip(idx + 1));
                assert(sv.take(idx + 1).drop_last() =~= sv.take(idx));
                assert(sv.take(idx + 1).last() == sv[idx]);
                lemma_total_units_prefix(sv, idx + 1);
                lemma_step_wf(before, sv[idx]);
                lemma_step_counts(before, sv[idx]);
            }
            match spec {
                ToolSpec::Function(tool) => {
                    let identity = ToolName::plain(tool.name.as_str());
                    let name = tool.name.clone();
                    match plan.push_function(name, tool, identity) {
                        Err(e) => {
                            return Err(e);
                        },
                        Ok(()) => {},
                    }
                },
                ToolSpec::Namespace(namespace) => {
                    match plan.push_namespace(namespace) {
                        Err(e) => {
                            return Err(e);
                        },
                        Ok(()) => {},
                    }
                },
                ToolSpec::Freeform(tool) => {
                    match plan.push_freeform(tool) {
                        Err(e) => {
                            return Err(e);
                        },
                        Ok(()) => {},
                    }
                },
                ToolSpec::ToolSearch { execution, description, parameters } => {
                    if capabilities.tool_search {
                        plan.push_passthrough(
                            ToolSpec::ToolSearch { execution, description, parameters },
                        );
                    } else {
                        plan.hidden_tool_count = plan.hidden_tool_count + 1;
                    }
                },
                ToolSpec::WebSearch { options } => {
                    if capabilities.built_in_tools {
                        plan.push_passthrough(ToolSpec::WebSearch { options });
                    } else {
                        plan.hidden_tool_count = plan.hidden_tool_count + 1;
                    }
                },
            }
            assert(step_spec(before, sv[idx]) == Ok::<PlanView, ToolPlanErrorView>(plan@));
        }
        proof {
            assert(sv.skip(sv.len() as int) =~= Seq::<ToolSpecView>::empty());
        }
        Ok(plan)
    }

    /// The capabilities the plan was made for.
    pub fn capabilities(&self) -> (caps: WireCapabilities)
        ensures
            caps == self@.capabilities,
    {
        self.capabilities
    }

    /// The tools the model sees.
    pub fn tools(&self) -> (tools: &[ToolSpec])
        ensures
            specs_view(tools@) == self@.tools,
    {
        self.tools.as_slice()
    }

    /// The identities by wire name, in increasing order of wire name.
    pub fn identities(&self) -> (identities: &[(String, ToolName)])
        ensures
            ids_view(identities@) == self@.identities,
    {
        self.identities.as_slice()
    }

    /// Number of namespaced functions converted to flat wire names.
    pub fn flattened_tool_count(&self) -> (count: usize)
        ensures
            count == self@.flattened,
    {
        self.flattened_tool_count
    }

    /// Number of tools omitted because the selected wire cannot encode them.
    pub fn hidden_tool_count(&self) -> (count: usize)
        ensures
            count == self@.hidden,
    {
        self.hidden_tool_count
    }

    /// Decodes a flat function name emitted by a function-only wire.
    pub fn decode_flat_name(&self, flat_name: &str) -> (tool: Option<ToolName>)
        ensures
            match lookup(self@.identities, flat_name@) {
                Some(id) => tool matches Some(t) && t@ == id,
                None => tool is None,
            },
    {
        let ghost ids = self@.identities;
        let n = self.identities.len();
        let mut i: usize = 0;
        assert(ids.skip(0) =~= ids);
        while i < n
            invariant
                n == self.identities@.len(),
                ids == ids_view(self.identities@),
                ids == self@.identities,
                i <= n,
                lookup(ids, flat_name@) == lookup(ids.skip(i as int), flat_name@),
            decreases n - i,
        {
            assert(ids.skip(i as int)[0] == ids[i as int]);
            assert(ids.skip(i as int).drop_first() =~= ids.skip(i + 1));
            if str_eq(self.identities[i].0.as_str(), flat_name) {
                return Some(self.identities[i].1.duplicate());
            }
            i = i + 1;
        }
        None
    }

    /// Encodes a canonical tool identity into the name exposed on this wire.
    pub fn encode_tool_name(&self, tool_name: &ToolName) -> (wire_name: Option<String>)
        ensures
            match encode_spec(self@.identities, tool_name@) {
                Some(k) => wire_name matches Some(w) && w@ == k,
                None => wire_name is None,
            },
    {
        let normalized = tool_name.duplicate().with_default_namespace();
        let ghost ids = self@.identities;
        let n = self.identities.len();
        let mut i: usize = 0;
        assert(ids.skip(0) =~= ids);
        while i < n
            invariant
                n == self.identities@.len(),
                ids == ids_view(self.identities@),
                ids == self@.identities,
                normalized@ == tool_name@.with_default_namespace(),
                i <= n,
                encode_spec(ids, tool_name@) == encode_spec(ids.skip(i as int), tool_name@),
            decreases n - i,
        {
            assert(ids.skip(i as int)[0] == ids[i as int]);
            assert(ids.skip(i as int).drop_first() =~= ids.skip(i + 1));
            let candidate = self.identities[i].1.duplicate().with_default_namespace();
            if tool_names_equal(&candidate, &normalized) {
                return Some(self.identities[i].0.clone());
            }
            i = i + 1;
        }
        None
    }
}

/// Whether two tool names are the same identity.
fn tool_names_equal(a: &ToolName, b: &ToolName) -> (eq: bool)
    ensures
        eq == (a@ == b@),
{
    if !str_eq(a.name.as_str(), b.name.as_str()) {
        return false;
    }
    match (&a.namespace, &b.namespace) {
        (None, None) => true,
        (Some(x), Some(y)) => str_eq(x.as_str(), y.as_str()),
        _ => false,
    }
}


proof fn lemma_sorted_drop_first(ids: Seq<(Seq<char>, ToolNameView)>)
    requires
        keys_sorted(ids),
        keys_match(ids),
        ids.len() > 0,
    ensures
        keys_sorted(ids.drop_first()),
        keys_match(ids.drop_first()),
{
    let d = ids.drop_first();
    assert forall|i: int, j: int| 0 <= i < j < d.len() implies chars_lt(#[trigger] d[i].0, #[trigger] d[j].0) by {
        assert(d[i] == ids[i + 1] && d[j] == ids[j + 1]);
    }
    assert forall|i: int| 0 <= i < d.len() implies #[trigger] d[i].0 == identity_key(d[i].1) by {
        assert(d[i] == ids[i + 1]);
    }
}

proof fn lemma_sorted_distinct(ids: Seq<(Seq<char>, ToolNameView)>, i: int, j: int)
    requires
        keys_sorted(ids),
        0 <= i < ids.len(),
        0 <= j < ids.len(),
        i != j,
    ensures
        ids[i].0 != ids[j].0,
{
    if i < j {
        assert(chars_lt(ids[i].0, ids[j].0));
        lemma_chars_lt_irreflexive(ids[i].0);
    } else {
        assert(chars_lt(ids[j].0, ids[i].0));
        lemma_chars_lt_irreflexive(ids[j].0);
    }
}

proof fn lemma_lookup_at(ids: Seq<(Seq<char>, ToolNameView)>, i: int)
    requires
        keys_sorted(ids),
        keys_match(ids),
        0 <= i < ids.len(),
    ensures
        lookup(ids, ids[i].0) == Some(ids[i].1),
    decreases i,
{
    if i > 0 {
        lemma_sorted_distinct(ids, 0, i);
        lemma_sorted_drop_first(ids);
        assert(ids.drop_first()[i - 1] == ids[i]);
        lemma_lookup_at(ids.drop_first(), i - 1);
    }
}

proof fn lemma_lookup_found(ids: Seq<(Seq<char>, ToolNameView)>, key: Seq<char>)
    ensures
        lookup(ids, key) matches Some(id) ==> exists|i: int|
            0 <= i < ids.len() && #[trigger] ids[i] == (key, id),
    decreases ids.len(),
{
    if ids.len() > 0 && ids[0].0 != key {
        lemma_lookup_found(ids.drop_first(), key);
        if let Some(id) = lookup(ids, key) {
            let i = choose|i: int| 0 <= i < ids.drop_first().len() && #[trigger] ids.drop_first()[i] == (key, id);
            assert(ids[i + 1] == (key, id));
        }
    } else if ids.len() > 0 {
        assert(ids[0] == (key, ids[0].1));
    }
}

proof fn lemma_encode_at(ids: Seq<(Seq<char>, ToolNameView)>, i: int)
    requires
        keys_sorted(ids),
        keys_match(ids),
        0 <= i < ids.len(),
    ensures
        encode_spec(ids, ids[i].1) == Some(ids[i].0),
    decreases i,
{
    if i > 0 {
        if ids[0].1.with_default_namespace() == ids[i].1.with_default_namespace() {
            lemma_identity_key_normalized(ids[0].1);
            lemma_identity_key_normalized(ids[i].1);
            lemma_sorted_distinct(ids, 0, i);
        }
        lemma_sorted_drop_first(ids);
        assert(ids.drop_first()[i - 1] == ids[i]);
        lemma_encode_at(ids.drop_first(), i - 1);
    }
}

proof fn lemma_encode_found(ids: Seq<(Seq<char>, ToolNameView)>, tool: ToolNameView)
    ensures
        encode_spec(ids, tool) matches Some(k) ==> exists|i: int|
            0 <= i < ids.len() && #[trigger] ids[i].0 == k && ids[i].1.with_default_namespace()
                == tool.with_default_namespace(),
    decreases ids.len(),
{
    if ids.len() > 0 && ids[0].1.with_default_namespace() != tool.with_default_namespace() {
        lemma_encode_found(ids.drop_first(), tool);
        if let Some(k) = encode_spec(ids, tool) {
            let i = choose|i: int|
                0 <= i < ids.drop_first().len() && #[trigger] ids.drop_first()[i].0 == k
                    && ids.drop_first()[i].1.with_default_namespace() == tool.with_default_namespace();
            assert(ids[i + 1] == ids.drop_first()[i]);
        }
    }
}

/// Round trip of tool identities: every identity a plan records decodes from its wire
/// name, and encodes back to that wire name.
pub proof fn lemma_identity_round_trip(plan: ToolPlan, i: int)
    requires
        plan.wf(),
        0 <= i < plan@.identities.len(),
    ensures
        lookup(plan@.identities, plan@.identities[i].0) == Some(plan@.identities[i].1),
        encode_spec(plan@.identities, plan@.identities[i].1) == Some(plan@.identities[i].0),
{
    lemma_lookup_at(plan@.identities, i);
    lemma_encode_at(plan@.identities, i);
}

/// A canonical tool name that encodes to a wire name decodes back from it to the same
/// identity, up to the default namespace.
pub proof fn lemma_encode_then_decode(plan: ToolPlan, tool: ToolNameView)
    requires
        plan.wf(),
    ensures
        encode_spec(plan@.identities, tool) matches Some(k) ==> lookup(plan@.identities, k) matches Some(id)
            && id.with_default_namespace() == tool.with_default_namespace(),
{
    let ids = plan@.identities;
    lemma_encode_found(ids, tool);
    if let Some(k) = encode_spec(ids, tool) {
        let i = choose|i: int|
            0 <= i < ids.len() && #[trigger] ids[i].0 == k && ids[i].1.with_default_namespace()
                == tool.with_default_namespace();
        lemma_lookup_at(ids, i);
    }
}

/// A wire name that decodes to an identity is what that identity encodes to.
pub proof fn lemma_decode_then_encode(plan: ToolPlan, wire_name: Seq<char>)
    requires
        plan.wf(),
    ensures
        lookup(plan@.identities, wire_name) matches Some(id) ==> encode_spec(plan@.identities, id)
            == Some(wire_name),
{
    let ids = plan@.identities;
    lemma_lookup_found(ids, wire_name);
    if let Some(id) = lookup(ids, wire_name) {
        let i = choose|i: int| 0 <= i < ids.len() && #[trigger] ids[i] == (wire_name, id);
        lemma_encode_at(ids, i);
    }
}

/// Every function the model sees can be called by its name: the name decodes to a
/// canonical identity, which encodes back to the same name.
pub proof fn lemma_visible_function_round_trip(plan: ToolPlan, i: int)
    requires
        plan.wf(),
        0 <= i < plan@.tools.len(),
        plan@.tools[i] is Function,
    ensures
        lookup(plan@.identities, plan@.tools[i]->Function_0.name) matches Some(id) && encode_spec(
            plan@.identities,
            id,
        ) == Some(plan@.tools[i]->Function_0.name),
{
    let ids = plan@.identities;
    let name = plan@.tools[i]->Function_0.name;
    assert(tool_decodable(ids, plan@.tools[i]));
    let j = choose|j: int| 0 <= j < ids.len() && #[trigger] ids[j].0 == name;
    lemma_lookup_at(ids, j);
    lemma_encode_at(ids, j);
}

/// The plan never offers a tool kind that its wire cannot encode; on a function-only wire
/// every offered tool is a plain function.
pub proof fn lemma_function_only_offers_functions(plan: ToolPlan, i: int)
    requires
        plan.wf(),
        plan@.capabilities == crate::capabilities::function_only_spec(),
        0 <= i < plan@.tools.len(),
    ensures
        plan@.tools[i] is Function,
{
    assert(tool_allowed(plan@.capabilities, plan@.tools[i]));
}


proof fn lemma_total_units_cons(x: ToolSpecView, s: Seq<ToolSpecView>)
    ensures
        total_units(seq![x] + s) == spec_units(x) + total_units(s),
    decreases s.len(),
{
    let c = seq![x] + s;
    if s.len() > 0 {
        assert(c.drop_last() =~= seq![x] + s.drop_last());
        assert(c.last() == s.last());
        lemma_total_units_cons(x, s.drop_last());
    } else {
        assert(c.drop_last() =~= Seq::<ToolSpecView>::empty());
        assert(c.last() == x);
        assert(total_units(c.drop_last()) == 0);
    }
}

proof fn lemma_flatten_conservation(st: PlanView, ns: Seq<char>, members: Seq<NamespaceToolView>)
    ensures
        flatten_members_spec(st, ns, members) matches Ok(v) ==> total_units(v.tools) + v.hidden
            == total_units(st.tools) + st.hidden + members.len(),
    decreases members.len(),
{
    if members.len() > 0 {
        match members[0] {
            NamespaceToolView::Function(t) => {
                let wire = flatten_name(ns, t.name);
                let id = ToolNameView { name: t.name, namespace: Some(ns) };
                if let Ok(s) = insert_identity_spec(st, wire, id) {
                    let tool = ToolSpecView::Function(flattened_function(ns, t));
                    let next = PlanView {
                        capabilities: s.capabilities,
                        tools: s.tools.push(tool),
                        identities: s.identities,
                        flattened: s.flattened + 1,
                        hidden: s.hidden,
                    };
                    assert(next.tools.drop_last() =~= s.tools);
                    lemma_flatten_conservation(next, ns, members.drop_first());
                }
            },
            NamespaceToolView::Custom(_) => {
                lemma_flatten_conservation(st.add_hidden(1), ns, members.drop_first());
            },
        }
    }
}

proof fn lemma_step_conservation(st: PlanView, spec: ToolSpecView)
    ensures
        step_spec(st, spec) matches Ok(v) ==> total_units(v.tools) + v.hidden == total_units(
            st.tools,
        ) + st.hidden + spec_units(spec),
{
    match spec {
        ToolSpecView::Namespace(ns) => {
            let caps = st.capabilities;
            if caps.namespace_tools {
                let kept = if caps.custom_tools {
                    ns.tools
                } else {
                    function_members(ns.tools)
                };
                lemma_function_members(ns.tools);
                let st1 = st.add_hidden((ns.tools.len() - kept.len()) as nat);
                lemma_insert_members_counts(st1, ns.name, kept);
                if let Ok(s) = insert_members_spec(st1, ns.name, kept) {
                    let tool = ToolSpecView::Namespace(
                        NamespaceView { name: ns.name, description: ns.description, tools: kept },
                    );
                    assert(s.push_tool(tool).tools.drop_last() =~= s.tools);
                }
            } else {
                lemma_flatten_conservation(st, ns.name, ns.tools);
            }
        },
        _ => {
            assert(st.push_tool(spec).tools.drop_last() =~= st.tools);
            if let Ok(s) = insert_identity_spec(st, spec.name(), ToolNameView { name: spec.name(), namespace: None }) {
                assert(s.push_tool(spec).tools.drop_last() =~= s.tools);
            }
        },
    }
}

proof fn lemma_plan_from_conservation(st: PlanView, specs: Seq<ToolSpecView>)
    ensures
        plan_from(st, specs) matches Ok(v) ==> total_units(v.tools) + v.hidden == total_units(
            st.tools,
        ) + st.hidden + total_units(specs),
    decreases specs.len(),
{
    if specs.len() > 0 {
        lemma_step_conservation(st, specs[0]);
        assert(specs =~= seq![specs[0]] + specs.drop_first());
        lemma_total_units_cons(specs[0], specs.drop_first());
        if let Ok(s) = step_spec(st, specs[0]) {
            lemma_plan_from_conservation(s, specs.drop_first());
        }
    }
}

/// No tool is lost: every tool of the request (each member of a namespace, or any other
/// specification) is either offered by the plan or counted as hidden.
pub proof fn lemma_tool_units_conserved(specs: Seq<ToolSpecView>, capabilities: WireCapabilities)
    ensures
        plan_spec(specs, capabilities) matches Ok(v) ==> total_units(specs) == total_units(v.tools)
            + v.hidden,
{
    lemma_plan_from_conservation(empty_plan(capabilities), specs);
}


/// The text of an agent message whose parts are all plain text, or nothing when a part is
/// encrypted.
pub open spec fn agent_plaintext(content: Seq<AgentMessageContentView>) -> Option<Seq<char>>
    decreases content.len(),
{
    if content.len() == 0 {
        Some(seq![])
    } else {
        match (agent_plaintext(content.drop_last()), content.last()) {
            (Some(t), AgentMessageContentView::InputText { text }) => Some(t + text),
            _ => None,
        }
    }
}

/// What a function-only wire delivers in place of an encrypted agent message.
pub open spec fn undeliverable_text(author: Seq<char>, recipient: Seq<char>) -> Seq<char> {
    "Agent message from "@ + author + " to "@ + recipient
        + " could not be delivered: the selected provider does not support encrypted agent messages."@
}

/// Whether a wire with `caps` drops an item of this kind from the history.
pub open spec fn drops_passthrough(caps: WireCapabilities, kind: PassthroughKind) -> bool {
    match kind {
        PassthroughKind::CustomToolCall | PassthroughKind::CustomToolCallOutput => !caps.custom_tools,
        PassthroughKind::ToolSearchCall | PassthroughKind::ToolSearchOutput => !caps.tool_search,
        PassthroughKind::WebSearchCall | PassthroughKind::ImageGenerationCall => !caps.built_in_tools,
        PassthroughKind::AdditionalTools => !caps.responses_lite,
        _ => false,
    }
}

/// One history item adapted to the wire of a plan, or nothing when the wire cannot carry it.
pub open spec fn adapt_item_spec(
    caps: WireCapabilities,
    ids: Seq<(Seq<char>, ToolNameView)>,
    item: ResponseItemView,
) -> Option<ResponseItemView> {
    match item {
        ResponseItemView::FunctionCall {
            id,
            name,
            namespace,
            arguments,
            encrypted_function_args,
            call_id,
            metadata,
        } => {
            let tool = ToolNameView { name, namespace }.with_default_namespace();
            if caps.namespace_tools {
                Some(
                    ResponseItemView::FunctionCall {
                        id,
                        name: tool.name,
                        namespace: tool.namespace,
                        arguments,
                        encrypted_function_args,
                        call_id,
                        metadata,
                    },
                )
            } else {
                Some(
                    ResponseItemView::FunctionCall {
                        id,
                        name: match encode_spec(ids, tool) {
                            Some(k) => k,
                            None => tool.name,
                        },
                        namespace: None,
                        arguments,
                        encrypted_function_args: None,
                        call_id,
                        metadata,
                    },
                )
            }
        },
        ResponseItemView::AgentMessage { id, author, recipient, content, metadata } => {
            if caps.namespace_tools {
                Some(item)
            } else {
                let text = match agent_plaintext(content) {
                    Some(t) => t,
                    None => undeliverable_text(author, recipient),
                };
                Some(
                    ResponseItemView::Message {
                        id,
                        role: "user"@,
                        content: seq![ContentItemView::InputText { text }],
                        phase: None,
                        metadata,
                    },
                )
            }
        },
        ResponseItemView::Passthrough { kind, .. } => if drops_passthrough(caps, kind) {
            None
        } else {
            Some(item)
        },
        _ => Some(item),
    }
}

/// The history adapted item by item, in order, without the items the wire drops.
pub open spec fn adapt_items_spec(
    caps: WireCapabilities,
    ids: Seq<(Seq<char>, ToolNameView)>,
    items: Seq<ResponseItemView>,
) -> Seq<ResponseItemView>
    decreases items.len(),
{
    if items.len() == 0 {
        seq![]
    } else {
        let rest = adapt_items_spec(caps, ids, items.drop_last());
        match adapt_item_spec(caps, ids, items.last()) {
            Some(x) => rest.push(x),
            None => rest,
        }
    }
}

/// The text of an agent message whose parts are all plain text.
fn plaintext_agent_message_content(content: &Vec<AgentMessageContent>) -> (text: Option<String>)
    ensures
        opt_view(text) == agent_plaintext(crate::protocol::agent_contents_view(content@)),
{
    let ghost cv = crate::protocol::agent_contents_view(content@);
    let mut text = String::new();
    let mut i: usize = 0;
    assert(cv.take(0) =~= Seq::<AgentMessageContentView>::empty());
    while i < content.len()
        invariant
            cv == crate::protocol::agent_contents_view(content@),
            i <= content@.len(),
            agent_plaintext(cv.take(i as int)) == Some(text@),
        decreases content@.len() - i,
    {
        assert(cv.take(i + 1).drop_last() =~= cv.take(i as int));
        assert(cv.take(i + 1).last() == content@[i as int]@);
        match &content[i] {
            AgentMessageContent::InputText { text: part } => {
                text.append(part.as_str());
            },
            AgentMessageContent::EncryptedContent { .. } => {
                assert(agent_plaintext(cv.take(i + 1)) is None);
                proof {
                    lemma_agent_plaintext_none_extends(cv, i + 1);
                }
                assert(cv.take(content@.len() as int) =~= cv);
                return None;
            },
        }
        i = i + 1;
    }
    assert(cv.take(content@.len() as int) =~= cv);
    Some(text)
}

proof fn lemma_agent_plaintext_none_extends(cv: Seq<AgentMessageContentView>, k: int)
    requires
        0 <= k <= cv.len(),
        agent_plaintext(cv.take(k)) is None,
    ensures
        agent_plaintext(cv) is None,
    decreases cv.len() - k,
{
    if k < cv.len() {
        assert(cv.take(k + 1).drop_last() =~= cv.take(k));
        lemma_agent_plaintext_none_extends(cv, k + 1);
    } else {
        assert(cv.take(k) =~= cv);
    }
}

impl ToolPlan {
    /// Adapts one stored conversation item to the features available on this wire.
    fn adapt_item(&self, item: ResponseItem) -> (adapted: Option<ResponseItem>)
        ensures
            match adapt_item_spec(self@.capabilities, self@.identities, item@) {
                Some(x) => adapted matches Some(a) && a@ == x,
                None => adapted is None,
            },
    {
        let ghost iv = item@;
        match item {
            ResponseItem::FunctionCall {
                id,
                name,
                namespace,
                arguments,
                encrypted_function_args,
                call_id,
                internal_chat_message_metadata_passthrough,
            } => {
                let tool_name = ToolName::new(namespace, name).with_default_namespace();
                if self.capabilities.namespace_tools {
                    Some(
                        ResponseItem::FunctionCall {
                            id,
                            name: tool_name.name,
                            namespace: tool_name.namespace,
                            arguments,
                            encrypted_function_args,
                            call_id,
                            internal_chat_message_metadata_passthrough,
                        },
                    )
                } else {
                    let name = match self.encode_tool_name(&tool_name) {
                        Some(wire_name) => wire_name,
                        None => tool_name.name,
                    };
                    Some(
                        ResponseItem::FunctionCall {
                            id,
                            name,
                            namespace: None,
                            arguments,
                            encrypted_function_args: None,
                            call_id,
                            internal_chat_message_metadata_passthrough,
                        },
                    )
                }
            },
            ResponseItem::AgentMessage {
                id,
                author,
                recipient,
                content,
                internal_chat_message_metadata_passthrough,
            } => {
                if self.capabilities.namespace_tools {
                    return Some(
                        ResponseItem::AgentMessage {
                            id,
                            author,
                            recipient,
                            content,
                            internal_chat_message_metadata_passthrough,
                        },
                    );
                }
                let text = match plaintext_agent_message_content(&content) {
                    Some(text) => text,
                    None => {
                        let mut text = String::from_str("Agent message from ");
                        text.append(author.as_str());
                        text.append(" to ");
                        text.append(recipient.as_str());
                        text.append(
                            " could not be delivered: the selected provider does not support encrypted agent messages.",
                        );
                        text
                    },
                };
                let mut parts: Vec<ContentItem> = Vec::new();
                parts.push(ContentItem::InputText { text });
                let adapted = ResponseItem::Message {
                    id,
                    role: String::from_str("user"),
                    content: parts,
                    phase: None,
                    internal_chat_message_metadata_passthrough,
                };
                assert(crate::protocol::contents_view(parts@) =~= seq![
                    ContentItemView::InputText { text: text@ },
                ]);
                Some(adapted)
            },
            ResponseItem::Passthrough { kind, body } => {
                let dropped = match kind {
                    PassthroughKind::CustomToolCall | PassthroughKind::CustomToolCallOutput => {
                        !self.capabilities.custom_tools
                    },
                    PassthroughKind::ToolSearchCall | PassthroughKind::ToolSearchOutput => {
                        !self.capabilities.tool_search
                    },
                    PassthroughKind::WebSearchCall | PassthroughKind::ImageGenerationCall => {
                        !self.capabilities.built_in_tools
                    },
                    PassthroughKind::AdditionalTools => !self.capabilities.responses_lite,
                    _ => false,
                };
                if dropped {
                    None
                } else {
                    Some(ResponseItem::Passthrough { kind, body })
                }
            },
            other => Some(other),
        }
    }

    /// Adapts stored conversation items to the features available on this wire.
    pub fn adapt_items(&self, items: Vec<ResponseItem>) -> (adapted: Vec<ResponseItem>)
        ensures
            items_view(adapted@) == adapt_items_spec(
                self@.capabilities,
                self@.identities,
                items_view(items@),
            ),
    {
        let ghost iv = items_view(items@);
        let mut adapted: Vec<ResponseItem> = Vec::new();
        assert(iv.take(0) =~= Seq::<ResponseItemView>::empty());
        for item in it: items
            invariant
                it.seq() == items@,
                iv == items_view(items@),
                items_view(adapted@) == adapt_items_spec(
                    self@.capabilities,
                    self@.identities,
                    iv.take(it.index() as int),
                ),
        {
            let ghost idx = it.index() as int;
            assert(iv.take(idx + 1).drop_last() =~= iv.take(idx));
            assert(iv.take(idx + 1).last() == item@);
            let ghost before = adapted@;
            match self.adapt_item(item) {
                Some(a) => {
                    adapted.push(a);
                    assert(items_view(adapted@) =~= items_view(before).push(a@));
                },
                None => {},
            }
        }
        assert(iv.take(iv.len() as int) =~= iv);
        adapted
    }
}


/// The tool calls and tool results of a history, in order: whether each is a call, and
/// the call id it carries.
pub open spec fn tool_exchange(items: Seq<ResponseItemView>) -> Seq<(bool, Option<Seq<char>>)>
    decreases items.len(),
{
    if items.len() == 0 {
        seq![]
    } else {
        let rest = tool_exchange(items.drop_last());
        match items.last() {
            ResponseItemView::FunctionCall { call_id, .. } => rest.push((true, Some(call_id))),
            ResponseItemView::FunctionCallOutput { call_id, .. } => rest.push((false, call_id)),
            _ => rest,
        }
    }
}

/// Adapting a history to a wire keeps every tool call and tool result, in order and with
/// its call id, so results still answer the calls they answered.
pub proof fn lemma_adaptation_keeps_tool_exchange(
    caps: WireCapabilities,
    ids: Seq<(Seq<char>, ToolNameView)>,
    items: Seq<ResponseItemView>,
)
    ensures
        tool_exchange(adapt_items_spec(caps, ids, items)) == tool_exchange(items),
    decreases items.len(),
{
    if items.len() > 0 {
        lemma_adaptation_keeps_tool_exchange(caps, ids, items.drop_last());
        let rest = adapt_items_spec(caps, ids, items.drop_last());
        match adapt_item_spec(caps, ids, items.last()) {
            Some(x) => {
                assert(rest.push(x).drop_last() =~= rest);
                assert(rest.push(x).last() == x);
            },
            None => {},
        }
    }
}

proof fn lemma_flatten_members_keep_fields(st: PlanView, ns: Seq<char>, members: Seq<NamespaceToolView>)
    ensures
        flatten_members_spec(st, ns, members) matches Ok(r) ==> {
            &&& st.tools.len() <= r.tools.len()
            &&& r.tools.take(st.tools.len() as int) == st.tools
            &&& forall|k: int|
                0 <= k < members.len() ==> (#[trigger] members[k] matches NamespaceToolView::Function(t)
                    ==> exists|j: int|
                    st.tools.len() <= j < r.tools.len() && #[trigger] r.tools[j] == ToolSpecView::Function(
                        FunctionToolView {
                            name: flatten_name(ns, t.name),
                            description: t.description,
                            strict: t.strict,
                            defer_loading: t.defer_loading,
                            parameters: t.parameters,
                            output_schema: t.output_schema,
                        },
                    ))
        },
    decreases members.len(),
{
    if members.len() > 0 {
        let rest = members.drop_first();
        match members[0] {
            NamespaceToolView::Function(t0) => {
                let wire = flatten_name(ns, t0.name);
                match insert_identity_spec(st, wire, ToolNameView { name: t0.name, namespace: Some(ns) }) {
                    Err(_) => {},
                    Ok(s) => {
                        let s2 = PlanView {
                            capabilities: s.capabilities,
                            tools: s.tools.push(ToolSpecView::Function(flattened_function(ns, t0))),
                            identities: s.identities,
                            flattened: s.flattened + 1,
                            hidden: s.hidden,
                        };
                        assert(s.tools == st.tools);
                        lemma_flatten_members_keep_fields(s2, ns, rest);
                        if let Ok(r) = flatten_members_spec(s2, ns, rest) {
                            let n = st.tools.len() as int;
                            assert(r.tools.take(n + 1)[n] == r.tools[n]);
                            assert(s2.tools[n] == ToolSpecView::Function(flattened_function(ns, t0)));
                            assert(r.tools.take(n) =~= s2.tools.take(n));
                            assert(s2.tools.take(n) =~= st.tools);
                            assert forall|k: int|
                                0 <= k < members.len() implies (#[trigger] members[k] matches NamespaceToolView::Function(t)
                                ==> exists|j: int|
                                st.tools.len() <= j < r.tools.len() && #[trigger] r.tools[j] == ToolSpecView::Function(
                                    FunctionToolView {
                                        name: flatten_name(ns, t.name),
                                        description: t.description,
                                        strict: t.strict,
                                        defer_loading: t.defer_loading,
                                        parameters: t.parameters,
                                        output_schema: t.output_schema,
                                    },
                                )) by {
                                if k == 0 {
                                    assert(r.tools[n] == ToolSpecView::Function(flattened_function(ns, t0)));
                                } else {
                                    assert(members[k] == rest[k - 1]);
                                }
                            }
                        }
                    },
                }
            },
            NamespaceToolView::Custom(_) => {
                lemma_flatten_members_keep_fields(st.add_hidden(1), ns, rest);
                assert forall|k: int| 0 < k < members.len() implies members[k] == rest[k - 1] by {}
            },
        }
    }
}

/// On a wire without namespace tools, every function member of a namespace is offered as
/// a function that keeps all of the member's fields but its name, which becomes the
/// namespace-qualified flat name: description, strictness, deferred loading, parameter
/// schema and output schema are the member's own.
pub proof fn lemma_flattening_keeps_member_fields(st: PlanView, ns: NamespaceView)
    requires
        !st.capabilities.namespace_tools,
    ensures
        push_namespace_spec(st, ns) matches Ok(r) ==> forall|k: int|
            0 <= k < ns.tools.len() ==> (#[trigger] ns.tools[k] matches NamespaceToolView::Function(t)
                ==> exists|j: int|
                st.tools.len() <= j < r.tools.len() && #[trigger] r.tools[j] == ToolSpecView::Function(
                    FunctionToolView {
                        name: flatten_name(ns.name, t.name),
                        description: t.description,
                        strict: t.strict,
                        defer_loading: t.defer_loading,
                        parameters: t.parameters,
                        output_schema: t.output_schema,
                    },
                )),
{
    lemma_flatten_members_keep_fields(st, ns.name, ns.tools);
}

/// Agent messages survive every wire: a wire with namespace tools keeps each as it is,
/// and one without delivers it as a user message (its text when it is plain, else a
/// notice that it could not be delivered).
pub proof fn lemma_agent_messages_are_delivered(
    caps: WireCapabilities,
    ids: Seq<(Seq<char>, ToolNameView)>,
    item: ResponseItemView,
)
    requires
        item is AgentMessage,
    ensures
        caps.namespace_tools ==> adapt_item_spec(caps, ids, item) == Some(item),
        !caps.namespace_tools ==> (adapt_item_spec(caps, ids, item) matches Some(m) && (m matches ResponseItemView::Message { role, .. } && role == "user"@)),
{
}

/// What a wire without namespaces can carry: no agent message, no namespace or encrypted
/// arguments on a call, and no item of a kind it drops.
pub open spec fn carried_without_namespaces(caps: WireCapabilities, item: ResponseItemView) -> bool {
    match item {
        ResponseItemView::AgentMessage { .. } => false,
        ResponseItemView::FunctionCall { namespace, encrypted_function_args, .. } => namespace is None
            && encrypted_function_args is None,
        ResponseItemView::Passthrough { kind, .. } => !drops_passthrough(caps, kind),
        _ => true,
    }
}

/// On a wire without namespace tools, the adapted history holds only what the wire can
/// carry.
pub proof fn lemma_function_only_history_is_carried(
    caps: WireCapabilities,
    ids: Seq<(Seq<char>, ToolNameView)>,
    items: Seq<ResponseItemView>,
)
    requires
        !caps.namespace_tools,
    ensures
        forall|i: int|
            0 <= i < adapt_items_spec(caps, ids, items).len() ==> carried_without_namespaces(
                caps,
                #[trigger] adapt_items_spec(caps, ids, items)[i],
            ),
    decreases items.len(),
{
    if items.len() > 0 {
        lemma_function_only_history_is_carried(caps, ids, items.drop_last());
        let rest = adapt_items_spec(caps, ids, items.drop_last());
        match adapt_item_spec(caps, ids, items.last()) {
            Some(x) => {
                let all = rest.push(x);
                assert forall|i: int| 0 <= i < all.len() implies carried_without_namespaces(
                    caps,
                    #[trigger] all[i],
                ) by {
                    if i < rest.len() {
                        assert(all[i] == rest[i]);
                    }
                }
            },
            None => {},
        }
    }
}

} // verus!
