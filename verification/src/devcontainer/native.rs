//! Building devcontainer images.

pub mod auth;
pub mod challenge;
pub mod dockerfile;
pub mod feature;
pub mod fetch;
pub mod graph;
pub mod oci;
pub mod order;
pub mod plan;
