//! The element tree: how a node is stored and how child structures are
//! walked.

pub mod children;
pub mod element_model;
pub mod list;
pub mod maybe_shared;
pub mod node_view;
