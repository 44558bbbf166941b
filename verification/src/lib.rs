//! Pankh: a featherweight Markdown reader for humans and AI agents.
pub mod agent;
pub mod chunker;
pub mod gui;
pub mod index;
pub mod io;
pub mod llmstxt;
pub mod markdown;
pub mod mcp;
pub mod outline;
pub mod query;
pub mod ranking;
pub mod report;
pub mod search;
pub mod text;
pub mod tui;
