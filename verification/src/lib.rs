//! The logic of a small agent that talks to a language model and calls tools for it.
pub mod agent;
pub mod bytes;
pub mod compression;
pub mod config;
pub mod file_memory;
pub mod heartbeat;
pub mod hooks;
pub mod identity;
pub mod json;
pub mod llm;
pub mod mcp;
pub mod memory;
pub mod memory_reviewer;
pub mod models;
pub mod number;
pub mod observer;
pub mod repl;
pub mod schema;
pub mod session_search;
pub mod skill;
pub mod text;
pub mod tool;
pub mod tool_registry;
pub mod unicode;
