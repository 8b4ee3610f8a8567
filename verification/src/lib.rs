//! A read-only viewer for S3-compatible storage: the listing, naming,
//! header-building and settings logic behind its REST API and MCP tools.
pub mod api;
pub mod models;
pub mod scripts;
pub mod settings;
pub mod text;
pub mod mappers;
pub mod errors;
pub mod buckets;
pub mod mcp;
pub mod flows;
