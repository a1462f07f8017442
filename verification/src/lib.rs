//! SylJS browser-engine research library: source spans and diagnostics, HTTP
//! protocol semantics, origin security policy, Cache API and Service Worker
//! simulation, the deterministic event loop, the script pipeline, the
//! script lexer, syntax tree and bytecode compiler, DOM and CSSOM snapshots,
//! and style/layout/paint invalidation planning.

pub mod span;
pub mod text;
pub mod keyed;
pub mod diagnostic;
pub mod http;
pub mod security;
pub mod script_scan;
pub mod cache_api;
pub mod event_loop;
pub mod script_pipeline;
pub mod vm;
pub mod site_compat;
pub mod ast;
pub mod benchmark;
pub mod dom;
pub mod cssom;
pub mod invalidation;
pub mod bytecode;
pub mod compiler;
pub mod canvas;
pub mod media;
pub mod lexer;
