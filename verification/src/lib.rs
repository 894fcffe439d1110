//! User-Agent rewriting for a transparent HTTP proxy: the decisions, parsers and
//! state machines of the proxy, with their contracts.

pub mod text;
pub mod matcher;
pub mod config;
pub mod stats;
pub mod cache;
pub mod http;
pub mod handler;
pub mod manager;
