//! Bidirectional, cost-guided path search over an entity graph, together with
//! the pure rules of its cache, its remote protocol and its tuning harness.

pub mod api_connector;
pub mod costs_calculator;
pub mod frontier;
pub mod harness;
pub mod lineage;
pub mod pathfinder;
pub mod response;
pub mod store_connector;
pub mod text;
pub mod turtle;
