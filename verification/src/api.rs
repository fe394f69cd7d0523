//! The HTTP interface: its models and the decisions of its handlers.
pub mod handlers;
pub mod models;
