//! Cordy — the verified core of a terminal coding agent.
//!
//! The library decides; its caller acts. It holds the canonical conversation model, the agent loop,
//! the provider adapters, the tools, permissions, goals and sessions as functions on plain values,
//! each with a contract that Verus proves. Files, processes, the network and the clock belong to the
//! program around it, which performs what the library decided and hands back what came of it.

use vstd::prelude::*;

pub mod agents;
pub mod bytes;
pub mod config;
pub mod engine;
pub mod frontmatter;
pub mod json;
pub mod mcp;
pub mod pairs;
pub mod paths;
pub mod patterns;
pub mod provider;
pub mod settings;
pub mod skills;
pub mod table;
pub mod text;
pub mod text_laws;
pub mod tools;
pub mod urls;

verus! {

} // verus!
