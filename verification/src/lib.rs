//! The logic of a proxy-wasm plugin that applies Kuadrant's auth and rate
//! limit policies to HTTP requests: configuration, property paths, CEL
//! helpers, the request pipeline and the decisions of its tasks, and the
//! replies of the services it calls.
use vstd::prelude::*;

pub mod text;
pub mod config;
pub mod legacy_translation;
pub mod property_path;
pub mod property;
pub mod metrics;
pub mod glob;
pub mod descriptors;
pub mod headers;
pub mod attribute;
pub mod metadata;
pub mod action_set_index;
pub mod user_metrics;
pub mod cel;
pub mod envoy;
pub mod operation_dispatcher;
pub mod action_dispatcher;
pub mod responses;
pub mod body_parser;
pub mod tasks;
pub mod ratelimit_task;
pub mod task_steps;
pub mod task_plan;
pub mod token_usage;
pub mod token_usage_task;
pub mod pipeline;
pub mod filter_flow;
pub mod store;
pub mod store_task;
pub mod attribute_store;

verus! {

} // verus!
