//! A programmable mock of federated GraphQL backends: the decisions and data
//! synthesis behind each mocked response, with their contracts.
pub mod config;
pub mod entries;
pub mod federation;
pub mod latency;
pub mod model;
pub mod pipeline;
mod random;
pub mod schema;
pub mod synth;
pub mod yaml;
