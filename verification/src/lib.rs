//! A stochastic, agent-based convergence simulator.
//!
//! A population of entities, each holding an integer attribute vector, is
//! repeatedly subdivided into small random disjoint groups; within each group
//! members pull each other's attributes toward a computed target weighted by
//! per-entity influence and damped by per-entity plasticity, while a scoring
//! function measures how close an entity's attributes are to a success
//! criterion.

pub mod arith;
mod attribute;
pub mod config;
mod entity;
pub mod fitness;
pub mod grouping;
pub mod interact;
pub mod mutate;
pub mod sim;
pub mod rng;
mod store;

pub use attribute::attrs_view;
pub use attribute::Attribute;
pub use config::Config;
pub use config::ConfigError;
pub use config::Objective;
pub use entity::Entity;
pub use fitness::fitness;
pub use sim::count_successful;
pub use sim::run_simulation;
pub use sim::should_dump;
pub use sim::tick;
pub use store::generate_initial_state;
pub use store::EntityStore;
