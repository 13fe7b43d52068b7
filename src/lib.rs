//! Code intelligence over a typed graph of files, symbols and references.
//!
//! - `graph`: the graph itself (nodes with tombstones, typed edges), search,
//!   dependency queries, neighbourhood search, merging of extractions, and
//!   the flat form used for persistence.
//! - `extract`: symbols, imports and calls read from a concrete syntax tree.
//! - `language`: languages by extension, and bounded code snippets.
//! - `signature`, `lines`, `scan`, `text`: signatures and their diff, call
//!   sites, and the text handling they rest on.
//! - `context`: the agent-facing queries (`get_context` and friends).
//! - `daemon`, `watcher`: the request protocol, the server's lifecycle, and
//!   the decisions of the file watcher.
//! - `regex`: regular expressions with intersection and complement, matched
//!   by derivatives.

pub mod context;
pub mod daemon;
pub mod extract;
pub mod graph;
pub mod language;
pub mod lines;
pub mod regex;
pub mod scan;
pub mod signature;
pub mod text;
pub mod watcher;
