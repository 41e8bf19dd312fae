//! Verified core logic of a coding agent's tool plumbing: routing of MCP
//! progress notifications, the model-visible view of additional context, and
//! the web-search tool's command handling.

pub mod additional_context;
pub mod json;
pub mod key_order;
pub mod progress;
pub mod search_call;
pub mod text;
pub mod web_search;
