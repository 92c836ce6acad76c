//! A workflow engine that drives multi-turn conversational interactions.
//!
//! A conversation is modelled as a cursor moving through a directed graph of
//! named steps. Each step owns a pipeline of [`Action`]s that transform a
//! shared variable bag, and each transition between steps is guarded by a
//! conjunction of [`Condition`]s over that bag.

pub mod action;
pub mod condition;
pub mod conversation;
pub mod description;
pub mod deserialize;
pub mod edge;
pub mod flow_graph;
pub mod flow_manager;
pub mod json;
pub mod registry;
pub mod memory_repository;
pub mod node;
pub mod samples;
pub mod schema;
pub mod strmap;
pub mod value;
pub mod vars;
