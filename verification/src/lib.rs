//! Verified core of an AI agent: conversation context, safety pipeline, tool
//! routing, model providers and the user interfaces around them.

pub mod text;
pub mod types;
pub mod context;
pub mod safety;
pub mod stream;
pub mod tool_routing;
pub mod provider;
pub mod wire;
pub mod agent;
pub mod json;
pub mod hooks;
pub mod orchestrator;
pub mod config;
pub mod tui;
pub mod memory;
pub mod cli;
pub mod backend;
