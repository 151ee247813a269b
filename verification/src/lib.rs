//! Nala, a general-purpose assistant that answers a request by calling a
//! language model and running the tool calls it asks for: shell commands,
//! web search, MCP servers and connected devices. This crate is its
//! verified core: the agent loop and its limits, tool routing, the context
//! budget, the persisted transcript and memory, and the text processing of
//! the built-in tools, each with its contract.
pub mod context_budget;
pub mod device;
pub mod events;
pub mod dispatch;
pub mod fetch_url;
pub mod json;
pub mod llm;
pub mod mcp;
pub mod pattern;
pub mod ports;
pub mod prompts;
pub mod sentences;
pub mod text;
pub mod tools;
pub mod turn;
pub mod weather;
pub mod web_search;
pub mod url;
pub mod transcript;
pub mod assistant;
pub mod memory;
pub mod bootstrap;
pub mod handshake;
pub mod narration;
pub mod autonomous;
pub mod metrics;
