//! A rule-chain execution engine: chains of typed processing nodes, checked
//! for cycles inside a chain and across sub-chain references, and the
//! routing and coordination rules that walk a message through them.
pub mod graph;
pub mod json;
pub mod types;
pub mod registry;
pub mod chain;
pub mod version;
pub mod engine;
pub mod template;
pub mod flow;
pub mod text;
pub mod components;
pub mod integrations;
pub mod builtin;
pub mod programs;
pub mod dispatch;
