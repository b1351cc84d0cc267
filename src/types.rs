//! Messages, nodes, connections, chains and errors.
//!
//! Identifiers (chains, nodes, messages) are UUIDs held as their 128-bit value.
use vstd::prelude::*;
use crate::json::{JsonValue, StringMap, same};

verus! {

/// Structural role of a node type.
#[derive(Debug, Clone, Copy, PartialEq, Eq, Structural)]
pub enum NodeType {
    /// Entry node: no incoming connections.
    Head,
    /// Processing node: any connections.
    Middle,
    /// Exit node: no outgoing connections.
    Tail,
}

/// Common node configuration: the node's role, `Middle` unless given.
#[derive(Debug, Clone, Copy, PartialEq, Eq, Structural)]
pub struct CommonConfig {
    pub node_type: NodeType,
}

/// The role a node has when its configuration names none.
pub fn default_node_type() -> (r: NodeType)
    ensures
        r == NodeType::Middle,
{
    NodeType::Middle
}

/// What a node factory says about the nodes it makes.
#[derive(Debug, Clone)]
pub struct NodeDescriptor {
    /// The registered type name.
    pub kind: String,
    pub name: String,
    pub description: String,
    pub node_type: NodeType,
}

/// Version information of a loaded chain.
#[derive(Debug, Clone, Copy, PartialEq, Eq, Structural)]
pub struct Metadata {
    pub version: u64,
    pub created_at: i64,
    pub updated_at: i64,
}

/// An edge from one node to another, labelled with a branch name.
#[derive(Debug, Clone)]
pub struct Connection {
    pub from_id: u128,
    pub to_id: u128,
    /// The branch label; `success` by default.
    pub label: String,
}

/// A processing step of a chain.
#[derive(Debug)]
pub struct Node {
    pub id: u128,
    pub chain_id: u128,
    /// The registered type name that makes this node's handler.
    pub kind: String,
    pub config: JsonValue,
}

/// A directed graph of nodes; the first node is where execution starts.
#[derive(Debug)]
pub struct RuleChain {
    pub id: u128,
    pub name: String,
    pub root: bool,
    pub nodes: Vec<Node>,
    pub connections: Vec<Connection>,
    pub metadata: Metadata,
}

/// The envelope that flows through a chain.
#[derive(Debug)]
pub struct Message {
    pub id: u128,
    pub msg_type: String,
    pub metadata: StringMap,
    pub data: JsonValue,
    pub timestamp: i64,
}

/// `b` is a copy of `a`: same id, type, metadata, payload and time.
pub open spec fn same_message(a: Message, b: Message) -> bool {
    &&& a.id == b.id
    &&& a.msg_type@ == b.msg_type@
    &&& a.metadata.entries@ == b.metadata.entries@
    &&& same(a.data, b.data)
    &&& a.timestamp == b.timestamp
}

/// Relies on uuid::Uuid::new_v4: a random identifier.
#[verifier::external_body]
fn fresh_uuid() -> (r: u128) {
    uuid::Uuid::new_v4().as_u128()
}

/// Relies on chrono::Utc::now: the current time in Unix milliseconds.
#[verifier::external_body]
pub(crate) fn now_millis() -> (r: i64) {
    chrono::Utc::now().timestamp_millis()
}

impl Message {
    /// A message with a fresh random id, empty metadata and the current time.
    pub fn new(msg_type: &str, data: JsonValue) -> (r: Message)
        ensures
            r.msg_type@ == msg_type@,
            r.metadata.entries@.len() == 0,
            r.data == data,
    {
        Message {
            id: fresh_uuid(),
            msg_type: msg_type.to_string(),
            metadata: StringMap::new(),
            data,
            timestamp: now_millis(),
        }
    }

    /// A copy of this message.
    pub fn duplicate(&self) -> (r: Message)
        ensures
            same_message(*self, r),
    {
        Message {
            id: self.id,
            msg_type: self.msg_type.clone(),
            metadata: self.metadata.duplicate(),
            data: self.data.duplicate(),
            timestamp: self.timestamp,
        }
    }
}

/// Per-execution state: the message being processed and context metadata.
#[derive(Debug)]
pub struct ExecutionContext {
    pub msg: Message,
    pub metadata: StringMap,
}

impl ExecutionContext {
    /// A context for `msg` with empty metadata.
    pub fn new(msg: Message) -> (r: ExecutionContext)
        ensures
            r.msg == msg,
            r.metadata.entries@.len() == 0,
    {
        ExecutionContext { msg, metadata: StringMap::new() }
    }
}

/// Errors of loading, routing and running chains.
#[derive(Debug, Clone, PartialEq, Eq)]
pub enum RuleError {
    NoRootChain,
    /// The node type is not registered.
    HandlerNotFound(String),
    /// A node failed while handling a message.
    NodeExecutionError(String),
    /// A filter turned the message away.
    FilterReject,
    /// Malformed or inconsistent configuration, or a refused operation.
    ConfigError(String),
    /// A cycle among nodes or among chains; the text names it.
    CircularDependency(String),
    /// No chain has this id.
    ChainNotFound(u128),
    /// An outside service failed.
    ComponentError(String),
}

} // verus!
