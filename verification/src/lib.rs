//! Capture ingestion pipeline for multiplexed web-chat sessions.
//!
//! The library turns vendor wire formats (event-stream feeds, batched JSON,
//! scraped DOM text) into normalized `CapturedMessage` records, moves them
//! out of a page context through redundant delivery channels, and merges the
//! deliveries into one idempotent, deduplicated record log.

mod bounds;
pub mod adapters;
pub mod agent;
pub mod auth;
pub mod collector;
pub mod decode;
pub mod json;
pub mod jsonl;
pub mod msg;
pub mod pct;
pub mod service;
pub mod text;

pub use bounds::devtools_flag;
pub use bounds::devtools_flag_spec;
pub use bounds::webview_bounds;
