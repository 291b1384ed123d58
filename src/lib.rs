//! Plugin catalog indexing: build-script extraction, version resolution,
//! catalog record assembly, discovery and reconciliation.

pub mod api;
pub mod builder;
pub mod catalog;
pub mod cli;
pub mod discover;
pub mod dsl;
pub mod front;
pub mod github;
pub mod gradle;
pub mod readme;
pub mod reconcile;
pub mod resolver;
pub mod text;
