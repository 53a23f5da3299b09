//! Incremental build and live-reload engine for a static site written in Norg markup.
//!
//! The verified library holds the decisions of the engine: where each file of a
//! project lives, which URL and output path a document gets, when an intermediate
//! artifact is rewritten, which artifacts are orphans, how a listing is ordered,
//! how metadata is checked against a schema, how filesystem events reduce to
//! actions, and how the development server routes a request.

pub mod paths;
pub mod text;
pub mod routes;
pub mod meta;
pub mod norg;
pub mod convert;
pub mod listing;
pub mod render;
pub mod schema;
pub mod watch;
pub mod server;
pub mod production;
pub mod config;
pub mod commands;
pub mod toc;
