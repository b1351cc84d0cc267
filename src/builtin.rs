//! The built-in node types and the engine that starts with them.
use vstd::prelude::*;
use crate::components::descriptor;
use crate::engine::RuleEngine;
use crate::registry::{NodeRegistry, RegistryEntry};
use crate::types::{NodeDescriptor, NodeType};

verus! {

/// Number of built-in node types.
pub const BUILTIN_COUNT: usize = 14;

/// Name of the built-in node type at position `i`.
pub open spec fn builtin_kind(i: int) -> Seq<char> {
    if i == 0 {
        "start"@
    } else if i == 1 {
        "delay"@
    } else if i == 2 {
        "schedule"@
    } else if i == 3 {
        "log"@
    } else if i == 4 {
        "filter"@
    } else if i == 5 {
        "transform"@
    } else if i == 6 {
        "transform_js"@
    } else if i == 7 {
        "script"@
    } else if i == 8 {
        "switch"@
    } else if i == 9 {
        "rest_client"@
    } else if i == 10 {
        "subchain"@
    } else if i == 11 {
        "js_function"@
    } else if i == 12 {
        "fork"@
    } else if i == 13 {
        "join"@
    } else {
        Seq::empty()
    }
}

/// Role of the built-in node type at position `i`: `start`, `delay` and
/// `schedule` are Head nodes, `log` is a Tail node, the others are Middle.
pub open spec fn builtin_role(i: int) -> NodeType {
    if i <= 2 {
        NodeType::Head
    } else if i == 3 {
        NodeType::Tail
    } else {
        NodeType::Middle
    }
}

/// `e` registers the built-in node type at position `i` with its descriptor.
pub open spec fn builtin_entry_at(e: RegistryEntry, i: int) -> bool {
    &&& e.kind@ == builtin_kind(i)
    &&& e.descriptor matches Some(d)
    &&& d.kind@ == builtin_kind(i)
    &&& d.node_type == builtin_role(i)
}

fn builtin_entry(kind: &str, name: &str, description: &str, node_type: NodeType) -> (r: RegistryEntry)
    ensures
        r.kind@ == kind@,
        r.descriptor matches Some(d) && d.kind@ == kind@ && d.node_type == node_type,
{
    RegistryEntry { kind: kind.to_string(), descriptor: Some(descriptor(kind, name, description, node_type)) }
}

impl NodeRegistry {
    /// A registry of the built-in node types, in the order above, each with
    /// its descriptor.
    pub fn builtin() -> (r: NodeRegistry)
        ensures
            r.entries@.len() == BUILTIN_COUNT,
            forall|i: int| 0 <= i < BUILTIN_COUNT ==> builtin_entry_at(#[trigger] r.entries@[i], i),
    {
        let mut entries: Vec<RegistryEntry> = Vec::new();
        entries.push(builtin_entry("start", "Start", "Entry node of a rule chain", NodeType::Head));
        entries.push(builtin_entry("delay", "Delay", "Sends the message on after a delay", NodeType::Head));
        entries.push(builtin_entry("schedule", "Schedule", "Sends messages on a cron schedule", NodeType::Head));
        entries.push(builtin_entry("log", "Log", "Writes a formatted log line", NodeType::Tail));
        entries.push(builtin_entry("filter", "Filter", "Passes messages that meet a condition", NodeType::Middle));
        entries.push(builtin_entry("transform", "Transform", "Builds a payload from a template", NodeType::Middle));
        entries.push(builtin_entry("transform_js", "Script transform", "Transforms the payload with a script", NodeType::Middle));
        entries.push(builtin_entry("script", "Script", "Runs a script over the message", NodeType::Middle));
        entries.push(builtin_entry("switch", "Switch", "Chooses a branch by condition", NodeType::Middle));
        entries.push(builtin_entry("rest_client", "HTTP client", "Sends an HTTP request", NodeType::Middle));
        entries.push(builtin_entry("subchain", "Sub-chain", "Runs another rule chain", NodeType::Middle));
        entries.push(builtin_entry("js_function", "Function", "Runs named script functions", NodeType::Middle));
        entries.push(builtin_entry("fork", "Fork", "Sends the message down parallel branches", NodeType::Middle));
        entries.push(builtin_entry("join", "Join", "Merges parallel branches", NodeType::Middle));
        NodeRegistry { entries }
    }
}

impl RuleEngine {
    /// An engine with no chains and the built-in node types.
    pub fn new() -> (r: RuleEngine)
        ensures
            r.wf(),
            r.chains@.len() == 0,
            r.version_manager.current_version == 1,
            r.registry.entries@.len() == BUILTIN_COUNT,
            forall|i: int| 0 <= i < BUILTIN_COUNT ==> builtin_entry_at(#[trigger] r.registry.entries@[i], i),
    {
        RuleEngine::with_registry(NodeRegistry::builtin())
    }
}

} // verus!
