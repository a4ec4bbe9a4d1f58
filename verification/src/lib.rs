pub mod agent_session;
pub mod command_safety;
pub mod config;
pub mod db;
pub mod legacy_laws;
pub mod legacy_operation;
pub mod legacy_statements;
pub mod oid;
pub mod operation;
pub mod order;
pub mod patch_mode;
pub mod rebase_laws;
pub mod rebase_todo;
pub mod safety_laws;
pub mod session_laws;
pub mod sql;
pub mod text;
pub mod tool;
pub mod upgrade;
pub mod web_assets;
