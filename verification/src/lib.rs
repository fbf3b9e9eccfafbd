//! Semantic and lexical code search: the verified core of chunking, token
//! estimation, chunk display and path handling.

pub mod text;
pub mod types;
pub mod chunk;
pub mod embed;
pub mod syntax;
pub mod heatmap;
pub mod mcp;
pub mod ast;
pub mod models;
pub mod chunk_view;
pub mod paths;
pub mod path_utils;
pub mod search;
pub mod index_update;
pub mod navigation;
pub mod regex_match;
pub mod highlight;
pub mod regex_search;
pub mod cli_plan;
pub mod tui_logic;
pub mod user_config;
pub mod stats_cache;
pub mod laws;
