//! Version 2 operation-log primitives.

pub mod dispatch;
pub mod facet;
pub mod facets;
pub mod filter;
pub mod filter_laws;
pub mod log_laws;
pub mod middleware;
pub mod runtime;
pub mod snapshot;
pub mod statements;
pub mod store;
pub mod view;
pub mod view_laws;
pub mod working_copy;
