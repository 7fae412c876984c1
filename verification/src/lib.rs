//! Transaction orchestration: sagas, dependency-graph workflows, TCC
//! transactions and a plugin lifecycle, as verified decision logic.
//!
//! The library decides; the surrounding program performs. Every engine is a
//! state machine over plain values: it names the next action, takes back what
//! happened, and states in its contract what follows.

pub mod cancel;
pub mod condition;
pub mod dlq;
pub mod extension;
pub mod gateway;
pub mod graph;
pub mod health;
pub mod manager;
pub mod model;
pub mod names;
pub mod observability;
pub mod persistence;
pub mod plugins;
pub mod recovery;
pub mod registry;
pub mod report;
pub mod resolve;
pub mod saga;
pub mod saga_composition;
pub mod scheduling;
pub mod signal;
pub mod sorting;
pub mod step_context;
pub mod step_invoker;
pub mod tcc;
pub mod text;
pub mod text_map;
pub mod time;
pub mod timer;
pub mod validator;
pub mod value;
pub mod wait;
pub mod web;
pub mod workflow;
pub mod workflow_advanced;

use vstd::prelude::*;

verus! {

/// The version of the orchestration library.
pub const VERSION: &'static str = "26.6.5";

} // verus!
