//! Statements for the tables of the operation log.

use vstd::prelude::*;

use super::store::{JournalRow, OpHead, OperationMetaV2, OperationRow, OperationStatusV2, ParentRow};
use crate::oid::Oid;
use crate::sql;
use crate::sql::{QueryModel, SqlModel, SqlQuery};
use crate::text;

verus! {

/// The columns of an [`OperationRow`], in order.
pub const OPERATION_COLUMNS: &'static str =
    "op_id, repo_id, format_version, kind, status, command_name, description, args_digest, actor, worktree_id, scope_kind, pre_view_oid, post_view_oid, restores_op_id, reverts_op_id, predecessor_map_oid, causal_context_id, start_ts, end_ts";

/// The operation with an id.
pub fn find_operation(op_id: &str) -> (r: SqlQuery)
    ensures
        r@ == (QueryModel {
            sql: "SELECT op_id, repo_id, format_version, kind, status, command_name, description, args_digest, actor, worktree_id, scope_kind, pre_view_oid, post_view_oid, restores_op_id, reverts_op_id, predecessor_map_oid, causal_context_id, start_ts, end_ts FROM operation WHERE op_id = ? LIMIT 1"@,
            values: seq![sql::text(op_id@)],
        }),
{
    let mut q = SqlQuery::new("SELECT op_id, repo_id, format_version, kind, status, command_name, description, args_digest, actor, worktree_id, scope_kind, pre_view_oid, post_view_oid, restores_op_id, reverts_op_id, predecessor_map_oid, causal_context_id, start_ts, end_ts FROM operation WHERE op_id = ? LIMIT 1");
    q.push_text(op_id);
    q
}

/// The parents of an operation, in the order they were given.
pub fn parents_of(op_id: &str) -> (r: SqlQuery)
    ensures
        r@ == (QueryModel {
            sql: "SELECT parent_op_id FROM operation_parent WHERE op_id = ? ORDER BY ordinal ASC"@,
            values: seq![sql::text(op_id@)],
        }),
{
    let mut q = SqlQuery::new("SELECT parent_op_id FROM operation_parent WHERE op_id = ? ORDER BY ordinal ASC");
    q.push_text(op_id);
    q
}

/// Writes the row of an operation.
pub fn insert_operation(row: &OperationRow) -> (r: SqlQuery)
    ensures
        r@ == (QueryModel {
            sql: "INSERT INTO operation (op_id, repo_id, format_version, kind, status, command_name, description, args_digest, actor, worktree_id, scope_kind, pre_view_oid, post_view_oid, restores_op_id, reverts_op_id, predecessor_map_oid, causal_context_id, start_ts, end_ts) VALUES (?, ?, ?, ?, ?, ?, ?, ?, ?, ?, ?, ?, ?, ?, ?, ?, ?, ?, ?)"@,
            values: seq![
                sql::text(row.op_id@),
                sql::text(row.repo_id@),
                SqlModel::Int(row.format_version),
                sql::text(row.kind@),
                sql::text(row.status@),
                SqlModel::Text(text::opt_text(row.command_name)),
                SqlModel::Text(text::opt_text(row.description)),
                SqlModel::Text(text::opt_text(row.args_digest)),
                SqlModel::Text(text::opt_text(row.actor)),
                SqlModel::Text(text::opt_text(row.worktree_id)),
                sql::text(row.scope_kind@),
                sql::text(row.pre_view_oid@),
                sql::text(row.post_view_oid@),
                SqlModel::Text(text::opt_text(row.restores_op_id)),
                SqlModel::Text(text::opt_text(row.reverts_op_id)),
                SqlModel::Text(text::opt_text(row.predecessor_map_oid)),
                SqlModel::Text(text::opt_text(row.causal_context_id)),
                sql::number(row.start_ts),
                SqlModel::BigInt(row.end_ts),
            ],
        }),
{
    let mut q = SqlQuery::new("INSERT INTO operation (op_id, repo_id, format_version, kind, status, command_name, description, args_digest, actor, worktree_id, scope_kind, pre_view_oid, post_view_oid, restores_op_id, reverts_op_id, predecessor_map_oid, causal_context_id, start_ts, end_ts) VALUES (?, ?, ?, ?, ?, ?, ?, ?, ?, ?, ?, ?, ?, ?, ?, ?, ?, ?, ?)");
    q.push_text(row.op_id.as_str());
    q.push_text(row.repo_id.as_str());
    q.push_int(row.format_version);
    q.push_text(row.kind.as_str());
    q.push_text(row.status.as_str());
    q.push_opt_text(&row.command_name);
    q.push_opt_text(&row.description);
    q.push_opt_text(&row.args_digest);
    q.push_opt_text(&row.actor);
    q.push_opt_text(&row.worktree_id);
    q.push_text(row.scope_kind.as_str());
    q.push_text(row.pre_view_oid.as_str());
    q.push_text(row.post_view_oid.as_str());
    q.push_opt_text(&row.restores_op_id);
    q.push_opt_text(&row.reverts_op_id);
    q.push_opt_text(&row.predecessor_map_oid);
    q.push_opt_text(&row.causal_context_id);
    q.push_number(row.start_ts);
    q.push_opt_number(row.end_ts);
    assert(q@.values =~= seq![
        sql::text(row.op_id@),
        sql::text(row.repo_id@),
        SqlModel::Int(row.format_version),
        sql::text(row.kind@),
        sql::text(row.status@),
        SqlModel::Text(text::opt_text(row.command_name)),
        SqlModel::Text(text::opt_text(row.description)),
        SqlModel::Text(text::opt_text(row.args_digest)),
        SqlModel::Text(text::opt_text(row.actor)),
        SqlModel::Text(text::opt_text(row.worktree_id)),
        sql::text(row.scope_kind@),
        sql::text(row.pre_view_oid@),
        sql::text(row.post_view_oid@),
        SqlModel::Text(text::opt_text(row.restores_op_id)),
        SqlModel::Text(text::opt_text(row.reverts_op_id)),
        SqlModel::Text(text::opt_text(row.predecessor_map_oid)),
        SqlModel::Text(text::opt_text(row.causal_context_id)),
        sql::number(row.start_ts),
        SqlModel::BigInt(row.end_ts),
    ]);
    q
}

/// Writes one parent edge.
pub fn insert_parent(row: &ParentRow) -> (r: SqlQuery)
    ensures
        r@ == (QueryModel {
            sql: "INSERT INTO operation_parent (op_id, parent_op_id, ordinal) VALUES (?, ?, ?)"@,
            values: seq![
                sql::text(row.op_id@),
                sql::text(row.parent_op_id@),
                SqlModel::Int(row.ordinal),
            ],
        }),
{
    let mut q = SqlQuery::new("INSERT INTO operation_parent (op_id, parent_op_id, ordinal) VALUES (?, ?, ?)");
    q.push_text(row.op_id.as_str());
    q.push_text(row.parent_op_id.as_str());
    q.push_int(row.ordinal);
    q
}

/// The published heads of a scope, by generation and then by id.
pub fn heads_of(repo_id: &str, scope_key: &str) -> (r: SqlQuery)
    ensures
        r@ == (QueryModel {
            sql: "SELECT op_id, generation FROM operation_head WHERE repo_id = ? AND scope_key = ? ORDER BY generation ASC, op_id ASC"@,
            values: seq![sql::text(repo_id@), sql::text(scope_key@)],
        }),
{
    let mut q = SqlQuery::new("SELECT op_id, generation FROM operation_head WHERE repo_id = ? AND scope_key = ? ORDER BY generation ASC, op_id ASC");
    q.push_text(repo_id);
    q.push_text(scope_key);
    q
}

/// Publishes a head.
pub fn insert_head(repo_id: &str, scope_key: &str, head: &OpHead) -> (r: SqlQuery)
    ensures
        r@ == (QueryModel {
            sql: "INSERT INTO operation_head (repo_id, scope_key, op_id, generation) VALUES (?, ?, ?, ?)"@,
            values: seq![
                sql::text(repo_id@),
                sql::text(scope_key@),
                sql::text(head.op_id@),
                sql::number(head.generation),
            ],
        }),
{
    let mut q = SqlQuery::new("INSERT INTO operation_head (repo_id, scope_key, op_id, generation) VALUES (?, ?, ?, ?)");
    q.push_text(repo_id);
    q.push_text(scope_key);
    q.push_text(head.op_id.as_str());
    q.push_number(head.generation);
    q
}

/// Takes back the published heads of a scope.
pub fn clear_heads(repo_id: &str, scope_key: &str) -> (r: SqlQuery)
    ensures
        r@ == (QueryModel {
            sql: "DELETE FROM operation_head WHERE repo_id = ? AND scope_key = ?"@,
            values: seq![sql::text(repo_id@), sql::text(scope_key@)],
        }),
{
    let mut q = SqlQuery::new("DELETE FROM operation_head WHERE repo_id = ? AND scope_key = ?");
    q.push_text(repo_id);
    q.push_text(scope_key);
    q
}

/// Sets the final view and status of an operation.
pub fn complete_operation(op_id: &str, post_view_oid: &Oid, status: OperationStatusV2, end_ts: i64) -> (r: SqlQuery)
    ensures
        r@ == (QueryModel {
            sql: "UPDATE operation SET post_view_oid = ?, status = ?, end_ts = ? WHERE op_id = ?"@,
            values: seq![
                sql::text(post_view_oid@),
                sql::text(status.name()),
                sql::number(end_ts),
                sql::text(op_id@),
            ],
        }),
{
    let mut q = SqlQuery::new("UPDATE operation SET post_view_oid = ?, status = ?, end_ts = ? WHERE op_id = ?");
    q.push_text(post_view_oid.as_str());
    q.push_text(status.as_str());
    q.push_number(end_ts);
    q.push_text(op_id);
    q
}

/// Notes what an operation was.
pub fn describe_operation(op_id: &str, metadata: &OperationMetaV2) -> (r: SqlQuery)
    ensures
        r@ == (QueryModel {
            sql: "UPDATE operation SET command_name = ?, description = ?, args_digest = ?, actor = ?, worktree_id = ?, scope_kind = ? WHERE op_id = ?"@,
            values: seq![
                SqlModel::Text(text::opt_text(metadata.command_name)),
                SqlModel::Text(text::opt_text(metadata.description)),
                SqlModel::Text(text::opt_text(metadata.args_digest)),
                SqlModel::Text(text::opt_text(metadata.actor)),
                SqlModel::Text(text::opt_text(metadata.worktree_id)),
                sql::text(metadata.scope_kind@),
                sql::text(op_id@),
            ],
        }),
{
    let mut q = SqlQuery::new("UPDATE operation SET command_name = ?, description = ?, args_digest = ?, actor = ?, worktree_id = ?, scope_kind = ? WHERE op_id = ?");
    q.push_opt_text(&metadata.command_name);
    q.push_opt_text(&metadata.description);
    q.push_opt_text(&metadata.args_digest);
    q.push_opt_text(&metadata.actor);
    q.push_opt_text(&metadata.worktree_id);
    q.push_text(metadata.scope_kind.as_str());
    q.push_text(op_id);
    assert(q@.values =~= seq![
        SqlModel::Text(text::opt_text(metadata.command_name)),
        SqlModel::Text(text::opt_text(metadata.description)),
        SqlModel::Text(text::opt_text(metadata.args_digest)),
        SqlModel::Text(text::opt_text(metadata.actor)),
        SqlModel::Text(text::opt_text(metadata.worktree_id)),
        sql::text(metadata.scope_kind@),
        sql::text(op_id@),
    ]);
    q
}

/// Sets the status of an operation.
pub fn set_status(op_id: &str, status: OperationStatusV2, end_ts: i64) -> (r: SqlQuery)
    ensures
        r@ == (QueryModel {
            sql: "UPDATE operation SET status = ?, end_ts = ? WHERE op_id = ?"@,
            values: seq![sql::text(status.name()), sql::number(end_ts), sql::text(op_id@)],
        }),
{
    let mut q = SqlQuery::new("UPDATE operation SET status = ?, end_ts = ? WHERE op_id = ?");
    q.push_text(status.as_str());
    q.push_number(end_ts);
    q.push_text(op_id);
    q
}

/// Writes a row of the journal.
pub fn insert_journal(row: &JournalRow) -> (r: SqlQuery)
    ensures
        r@ == (QueryModel {
            sql: "INSERT INTO operation_journal (journal_id, op_id, phase, pre_view_oid, target_view_oid, owner, updated_at, recovery_payload) VALUES (?, ?, ?, ?, ?, ?, ?, ?)"@,
            values: seq![
                sql::text(row.journal_id@),
                sql::text(row.op_id@),
                sql::text(row.phase@),
                SqlModel::Text(text::opt_text(row.pre_view_oid)),
                SqlModel::Text(text::opt_text(row.target_view_oid)),
                sql::text(row.owner@),
                sql::number(row.updated_at),
                SqlModel::Text(text::opt_text(row.recovery_payload)),
            ],
        }),
{
    let mut q = SqlQuery::new("INSERT INTO operation_journal (journal_id, op_id, phase, pre_view_oid, target_view_oid, owner, updated_at, recovery_payload) VALUES (?, ?, ?, ?, ?, ?, ?, ?)");
    q.push_text(row.journal_id.as_str());
    q.push_text(row.op_id.as_str());
    q.push_text(row.phase.as_str());
    q.push_opt_text(&row.pre_view_oid);
    q.push_opt_text(&row.target_view_oid);
    q.push_text(row.owner.as_str());
    q.push_number(row.updated_at);
    q.push_opt_text(&row.recovery_payload);
    assert(q@.values =~= seq![
        sql::text(row.journal_id@),
        sql::text(row.op_id@),
        sql::text(row.phase@),
        SqlModel::Text(text::opt_text(row.pre_view_oid)),
        SqlModel::Text(text::opt_text(row.target_view_oid)),
        sql::text(row.owner@),
        sql::number(row.updated_at),
        SqlModel::Text(text::opt_text(row.recovery_payload)),
    ]);
    q
}

/// The row of the journal with an id.
pub fn find_journal(journal_id: &str) -> (r: SqlQuery)
    ensures
        r@ == (QueryModel {
            sql: "SELECT journal_id, op_id, phase, pre_view_oid, target_view_oid, owner, updated_at, recovery_payload FROM operation_journal WHERE journal_id = ? LIMIT 1"@,
            values: seq![sql::text(journal_id@)],
        }),
{
    let mut q = SqlQuery::new("SELECT journal_id, op_id, phase, pre_view_oid, target_view_oid, owner, updated_at, recovery_payload FROM operation_journal WHERE journal_id = ? LIMIT 1");
    q.push_text(journal_id);
    q
}

/// Puts a row of the journal in the place of the one it has.
pub fn update_journal(row: &JournalRow) -> (r: SqlQuery)
    ensures
        r@ == (QueryModel {
            sql: "UPDATE operation_journal SET phase = ?, pre_view_oid = ?, target_view_oid = ?, recovery_payload = ?, updated_at = ? WHERE journal_id = ?"@,
            values: seq![
                sql::text(row.phase@),
                SqlModel::Text(text::opt_text(row.pre_view_oid)),
                SqlModel::Text(text::opt_text(row.target_view_oid)),
                SqlModel::Text(text::opt_text(row.recovery_payload)),
                sql::number(row.updated_at),
                sql::text(row.journal_id@),
            ],
        }),
{
    let mut q = SqlQuery::new("UPDATE operation_journal SET phase = ?, pre_view_oid = ?, target_view_oid = ?, recovery_payload = ?, updated_at = ? WHERE journal_id = ?");
    q.push_text(row.phase.as_str());
    q.push_opt_text(&row.pre_view_oid);
    q.push_opt_text(&row.target_view_oid);
    q.push_opt_text(&row.recovery_payload);
    q.push_number(row.updated_at);
    q.push_text(row.journal_id.as_str());
    assert(q@.values =~= seq![
        sql::text(row.phase@),
        SqlModel::Text(text::opt_text(row.pre_view_oid)),
        SqlModel::Text(text::opt_text(row.target_view_oid)),
        SqlModel::Text(text::opt_text(row.recovery_payload)),
        sql::number(row.updated_at),
        sql::text(row.journal_id@),
    ]);
    q
}

} // verus!
