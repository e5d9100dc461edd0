//! Core of a terminal coding agent.

pub mod agent;
pub mod background;
pub mod builtins;
pub mod client;
pub mod compact;
pub mod compact_laws;
pub mod consolidate;
pub mod consolidate_laws;
pub mod error;
pub mod hooks;
pub mod io;
pub mod json;
pub mod mcp;
pub mod memory;
pub mod memory_laws;
pub mod memory_text;
pub mod memory_text_laws;
pub mod output;
pub mod paths;
pub mod pattern;
pub mod recall;
pub mod recall_laws;
pub mod render;
pub mod stream;
pub mod stream_laws;
pub mod strmap;
pub mod task;
pub mod team;
pub mod text;
pub mod text_laws;
pub mod tools;
