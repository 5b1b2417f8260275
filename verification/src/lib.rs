//! Verified core of a code-intelligence indexer: the knowledge graph of a
//! repository, the ingestion phases that fill it, text search over it, the
//! bookkeeping that stores it, and the rules of its command line, HTTP API
//! and MCP server.

pub mod cli;
pub mod communities;
pub mod config;
pub mod cross_file;
pub mod graph;
pub mod grep;
pub mod mcp;
pub mod parse;
pub mod paths;
pub mod pipeline;
pub mod scan;
pub mod search;
pub mod server;
pub mod storage;
pub mod structure;
pub mod text;
pub mod time;
pub mod types;
