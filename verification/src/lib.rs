//! Core logic of an MCP proxy fabric: catalog aggregation with
//! collision-safe namespacing, identifier codecs, transform pipelines,
//! contract-change tracking, tool-call routing policy, and outbound
//! safety checks.

pub mod aggregate;
pub mod b64;
pub mod cache;
pub mod canon;
pub mod config;
pub mod contracts;
pub mod digest;
pub mod httptool;
pub mod ids;
pub mod json;
pub mod model;
pub mod openapi_names;
pub mod openapi_synth;
pub mod retry;
pub mod safety;
pub mod sessions;
pub mod shape;
pub mod text;
pub mod transforms;
pub mod upstream;
pub mod validate;
