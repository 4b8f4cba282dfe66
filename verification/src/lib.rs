//! The parts of a federated GraphQL router that decide without talking to
//! anyone.
//!
//! Most of the crate is the entity cache, a response cache that sits between
//! the router and its subgraphs: how cache-control directives are read, merged
//! and written (`cache_control`), how cache keys are derived from a request
//! (`keys`), how an `_entities` request is split into cached and missing
//! representations and how the two answers are merged again (`entity`), how a
//! root query is answered and stored as a whole (`root`), which keys an
//! invalidation deletes (`invalidation`), what the store has to do (`store`),
//! and how a request goes through all this (`middleware`). Talking to the
//! store and to the subgraph is left to the caller.
//!
//! Beside it stand the comparison of the query plans that two planners give
//! for the same query (`plan`, `operation`) and the messages of connector
//! validation (`validation`).

pub mod cache_control;
pub mod digest;
pub mod entity;
pub mod entry;
pub mod headers;
pub mod invalidation;
pub mod keys;
pub mod metrics;
pub mod middleware;
pub mod operation;
pub mod order;
pub mod plan;
pub mod registry;
pub mod request;
pub mod root;
pub mod round_trip;
pub mod store;
pub mod text;
pub mod validation;
