//! Pipelines of file operations: their model, node catalogue, preview and execution.
pub mod model;
pub mod preview;
pub mod registry;
pub mod executor;
pub mod handlers;
