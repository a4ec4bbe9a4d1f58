//! The databases: who owns them, and what their schemas hold.

pub mod schema;
pub mod schema_laws;
