//! Sapper: a lightweight web framework.
//!
//! The verified core holds the request and response values, the middleware
//! chain that wraps every route handler, the route table, the decisions of the
//! per-connection request handler and the small string computations around
//! them (request targets, static file paths, listen addresses).

pub mod error;
pub mod request;
pub mod target;
pub mod response;
pub mod chain;
pub mod router;
pub mod sapp;
pub mod statics;
pub mod handler;
