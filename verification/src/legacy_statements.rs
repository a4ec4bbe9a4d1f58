//! Statements for the tables of version 1.

use vstd::prelude::*;

use crate::legacy_operation;
use crate::legacy_operation::{
    LegacyOperationRow, OperationParentRecord, OperationViewRecord, OperationViewWorkspaceRecord,
    ViewRefRow,
};
use crate::sql;
use crate::sql::{QueryModel, SqlModel, SqlQuery};
use crate::text;

verus! {

/// The columns of a [`LegacyOperationRow`], in order, from every operation.
pub const LEGACY_OPERATION_SELECT: &'static str =
    "SELECT op_id, repo_id, view_id, command_name, description, actor, args_digest, start_ts, end_ts, status, worktree_id, scope_provenance, restorable, control_slot, claim_owner, scope_kind FROM operation";

/// The statement that lists the operations of a repository, newest first: all,
/// or those of one command; from the start, or past an offset.
pub open spec fn legacy_list_statement(
    repo_id: Seq<char>,
    command_name: Option<Seq<char>>,
    limit: u64,
    offset: Option<u64>,
) -> QueryModel {
    let by_command = if command_name is Some {
        " AND command_name = ?"@
    } else {
        Seq::empty()
    };
    let past = if offset is Some {
        " OFFSET ?"@
    } else {
        Seq::empty()
    };
    let keys = match command_name {
        Some(c) => seq![sql::text(repo_id), sql::text(c)],
        None => seq![sql::text(repo_id)],
    };
    let bounded = keys.push(sql::number(limit as i64));
    QueryModel {
        sql: LEGACY_OPERATION_SELECT@ + " WHERE repo_id = ?"@ + by_command
            + " ORDER BY end_ts DESC, start_ts DESC, op_id DESC LIMIT ?"@ + past,
        values: match offset {
            Some(o) => bounded.push(sql::number(o as i64)),
            None => bounded,
        },
    }
}

pub fn list_operations(
    repo_id: &str,
    command_name: Option<&str>,
    limit: u64,
    offset: Option<u64>,
) -> (r: SqlQuery)
    ensures
        r@ == legacy_list_statement(
            repo_id@,
            legacy_operation::opt_str(command_name),
            limit,
            offset,
        ),
{
    let mut q = SqlQuery::new(LEGACY_OPERATION_SELECT);
    q.push_sql(" WHERE repo_id = ?");
    if command_name.is_some() {
        q.push_sql(" AND command_name = ?");
    }
    q.push_sql(" ORDER BY end_ts DESC, start_ts DESC, op_id DESC LIMIT ?");
    if offset.is_some() {
        q.push_sql(" OFFSET ?");
    }
    q.push_text(repo_id);
    if let Some(c) = command_name {
        q.push_text(c);
    }
    q.push_number(limit as i64);
    if let Some(o) = offset {
        q.push_number(o as i64);
    }
    assert(q@ =~= legacy_list_statement(
        repo_id@,
        legacy_operation::opt_str(command_name),
        limit,
        offset,
    ));
    q
}

/// The statement that deletes an operation: its row, and nothing else.
pub open spec fn delete_statement(op_id: Seq<char>) -> QueryModel {
    QueryModel { sql: "DELETE FROM operation WHERE op_id = ?"@, values: seq![sql::text(op_id)] }
}

pub fn delete_operation(op_id: &str) -> (r: SqlQuery)
    ensures
        r@ == delete_statement(op_id@),
{
    let mut q = SqlQuery::new("DELETE FROM operation WHERE op_id = ?");
    q.push_text(op_id);
    assert(q@ =~= delete_statement(op_id@));
    q
}

/// The statement that finds recent successes of one command with one digest:
/// in one worktree, or in the whole repository.
pub open spec fn legacy_duplicates_statement(
    repo_id: Seq<char>,
    worktree_id: Option<Seq<char>>,
    command_name: Seq<char>,
    args_digest: Seq<char>,
    earliest_end_ts: i64,
    limit: u64,
) -> QueryModel {
    let scoped = if worktree_id is Some {
        " AND worktree_id = ?"@
    } else {
        Seq::empty()
    };
    let keys = seq![
        sql::text(repo_id),
        sql::text(command_name),
        sql::text(args_digest),
        sql::number(earliest_end_ts),
    ];
    QueryModel {
        sql: LEGACY_OPERATION_SELECT@
            + " WHERE repo_id = ? AND command_name = ? AND args_digest = ? AND status = 'succeeded' AND end_ts >= ?"@
            + scoped + " ORDER BY end_ts DESC, start_ts DESC, op_id DESC LIMIT ?"@,
        values: match worktree_id {
            Some(w) => keys.push(sql::text(w)).push(sql::number(limit as i64)),
            None => keys.push(sql::number(limit as i64)),
        },
    }
}

pub fn recent_duplicates(
    repo_id: &str,
    worktree_id: Option<&str>,
    command_name: &str,
    args_digest: &str,
    earliest_end_ts: i64,
    limit: u64,
) -> (r: SqlQuery)
    ensures
        r@ == legacy_duplicates_statement(
            repo_id@,
            legacy_operation::opt_str(worktree_id),
            command_name@,
            args_digest@,
            earliest_end_ts,
            limit,
        ),
{
    let mut q = SqlQuery::new(LEGACY_OPERATION_SELECT);
    q.push_sql(
        " WHERE repo_id = ? AND command_name = ? AND args_digest = ? AND status = 'succeeded' AND end_ts >= ?",
    );
    if worktree_id.is_some() {
        q.push_sql(" AND worktree_id = ?");
    }
    q.push_sql(" ORDER BY end_ts DESC, start_ts DESC, op_id DESC LIMIT ?");
    q.push_text(repo_id);
    q.push_text(command_name);
    q.push_text(args_digest);
    q.push_number(earliest_end_ts);
    if let Some(w) = worktree_id {
        q.push_text(w);
    }
    q.push_number(limit as i64);
    assert(q@ =~= legacy_duplicates_statement(
        repo_id@,
        legacy_operation::opt_str(worktree_id),
        command_name@,
        args_digest@,
        earliest_end_ts,
        limit,
    ));
    q
}

/// The operation with an id.
pub fn find_operation(op_id: &str) -> (r: SqlQuery)
    ensures
        r@ == (QueryModel {
            sql: "SELECT op_id, repo_id, view_id, command_name, description, actor, args_digest, start_ts, end_ts, status, worktree_id, scope_provenance, restorable, control_slot, claim_owner, scope_kind FROM operation WHERE op_id = ? LIMIT 1"@,
            values: seq![sql::text(op_id@)],
        }),
{
    let mut q = SqlQuery::new("SELECT op_id, repo_id, view_id, command_name, description, actor, args_digest, start_ts, end_ts, status, worktree_id, scope_provenance, restorable, control_slot, claim_owner, scope_kind FROM operation WHERE op_id = ? LIMIT 1");
    q.push_text(op_id);
    q
}

/// Writes the row of an operation.
pub fn insert_operation(row: &LegacyOperationRow) -> (r: SqlQuery)
    ensures
        r@ == (QueryModel {
            sql: "INSERT INTO operation (op_id, repo_id, view_id, command_name, description, actor, args_digest, start_ts, end_ts, status, worktree_id, scope_provenance, restorable, control_slot, claim_owner, scope_kind) VALUES (?, ?, ?, ?, ?, ?, ?, ?, ?, ?, ?, ?, ?, ?, ?, ?)"@,
            values: seq![
                sql::text(row.op_id@),
                sql::text(row.repo_id@),
                sql::text(row.view_id@),
                sql::text(row.command_name@),
                sql::text(row.description@),
                sql::text(row.actor@),
                SqlModel::Text(text::opt_text(row.args_digest)),
                sql::number(row.start_ts),
                SqlModel::BigInt(row.end_ts),
                sql::text(row.status@),
                sql::text(row.worktree_id@),
                sql::text(row.scope_provenance@),
                SqlModel::Int(row.restorable),
                SqlModel::Text(text::opt_text(row.control_slot)),
                SqlModel::Text(text::opt_text(row.claim_owner)),
                sql::text(row.scope_kind@),
            ],
        }),
{
    let mut q = SqlQuery::new("INSERT INTO operation (op_id, repo_id, view_id, command_name, description, actor, args_digest, start_ts, end_ts, status, worktree_id, scope_provenance, restorable, control_slot, claim_owner, scope_kind) VALUES (?, ?, ?, ?, ?, ?, ?, ?, ?, ?, ?, ?, ?, ?, ?, ?)");
    q.push_text(row.op_id.as_str());
    q.push_text(row.repo_id.as_str());
    q.push_text(row.view_id.as_str());
    q.push_text(row.command_name.as_str());
    q.push_text(row.description.as_str());
    q.push_text(row.actor.as_str());
    q.push_opt_text(&row.args_digest);
    q.push_number(row.start_ts);
    q.push_opt_number(row.end_ts);
    q.push_text(row.status.as_str());
    q.push_text(row.worktree_id.as_str());
    q.push_text(row.scope_provenance.as_str());
    q.push_int(row.restorable);
    q.push_opt_text(&row.control_slot);
    q.push_opt_text(&row.claim_owner);
    q.push_text(row.scope_kind.as_str());
    assert(q@.values =~= seq![
        sql::text(row.op_id@),
        sql::text(row.repo_id@),
        sql::text(row.view_id@),
        sql::text(row.command_name@),
        sql::text(row.description@),
        sql::text(row.actor@),
        SqlModel::Text(text::opt_text(row.args_digest)),
        sql::number(row.start_ts),
        SqlModel::BigInt(row.end_ts),
        sql::text(row.status@),
        sql::text(row.worktree_id@),
        sql::text(row.scope_provenance@),
        SqlModel::Int(row.restorable),
        SqlModel::Text(text::opt_text(row.control_slot)),
        SqlModel::Text(text::opt_text(row.claim_owner)),
        sql::text(row.scope_kind@),
    ]);
    q
}

/// Writes one parent edge.
pub fn insert_parent(record: &OperationParentRecord) -> (r: SqlQuery)
    ensures
        r@ == (QueryModel {
            sql: "INSERT INTO operation_parent (op_id, parent_op_id) VALUES (?, ?)"@,
            values: seq![sql::text(record.op_id@), sql::text(record.parent_op_id@)],
        }),
{
    let mut q = SqlQuery::new("INSERT INTO operation_parent (op_id, parent_op_id) VALUES (?, ?)");
    q.push_text(record.op_id.as_str());
    q.push_text(record.parent_op_id.as_str());
    q
}

/// Writes a view.
pub fn insert_view(record: &OperationViewRecord) -> (r: SqlQuery)
    ensures
        r@ == (QueryModel {
            sql: "INSERT INTO operation_view (view_id, repo_id, head_kind, head_target, created_at) VALUES (?, ?, ?, ?, ?)"@,
            values: seq![
                sql::text(record.view_id@),
                sql::text(record.repo_id@),
                sql::text(record.head_kind@),
                sql::text(record.head_target@),
                sql::number(record.created_at),
            ],
        }),
{
    let mut q = SqlQuery::new("INSERT INTO operation_view (view_id, repo_id, head_kind, head_target, created_at) VALUES (?, ?, ?, ?, ?)");
    q.push_text(record.view_id.as_str());
    q.push_text(record.repo_id.as_str());
    q.push_text(record.head_kind.as_str());
    q.push_text(record.head_target.as_str());
    q.push_number(record.created_at);
    assert(q@.values =~= seq![
        sql::text(record.view_id@),
        sql::text(record.repo_id@),
        sql::text(record.head_kind@),
        sql::text(record.head_target@),
        sql::number(record.created_at),
    ]);
    q
}

/// The view with an id.
pub fn find_view(view_id: &str) -> (r: SqlQuery)
    ensures
        r@ == (QueryModel {
            sql: "SELECT view_id, repo_id, head_kind, head_target, created_at FROM operation_view WHERE view_id = ? LIMIT 1"@,
            values: seq![sql::text(view_id@)],
        }),
{
    let mut q = SqlQuery::new("SELECT view_id, repo_id, head_kind, head_target, created_at FROM operation_view WHERE view_id = ? LIMIT 1");
    q.push_text(view_id);
    q
}

/// Removes the references of a view.
pub fn clear_view_refs(view_id: &str) -> (r: SqlQuery)
    ensures
        r@ == (QueryModel {
            sql: "DELETE FROM operation_view_ref WHERE view_id = ?"@,
            values: seq![sql::text(view_id@)],
        }),
{
    let mut q = SqlQuery::new("DELETE FROM operation_view_ref WHERE view_id = ?");
    q.push_text(view_id);
    q
}

/// Writes one reference of a view.
pub fn insert_view_ref(row: &ViewRefRow) -> (r: SqlQuery)
    ensures
        r@ == (QueryModel {
            sql: "INSERT INTO operation_view_ref (view_id, ref_kind, ref_name, ref_remote, target_oid) VALUES (?, ?, ?, ?, ?)"@,
            values: seq![
                sql::text(row.view_id@),
                sql::text(row.ref_kind@),
                sql::text(row.ref_name@),
                sql::text(row.ref_remote@),
                sql::text(row.target_oid@),
            ],
        }),
{
    let mut q = SqlQuery::new("INSERT INTO operation_view_ref (view_id, ref_kind, ref_name, ref_remote, target_oid) VALUES (?, ?, ?, ?, ?)");
    q.push_text(row.view_id.as_str());
    q.push_text(row.ref_kind.as_str());
    q.push_text(row.ref_name.as_str());
    q.push_text(row.ref_remote.as_str());
    q.push_text(row.target_oid.as_str());
    assert(q@.values =~= seq![
        sql::text(row.view_id@),
        sql::text(row.ref_kind@),
        sql::text(row.ref_name@),
        sql::text(row.ref_remote@),
        sql::text(row.target_oid@),
    ]);
    q
}

/// The references of a view, by kind, name and remote.
pub fn list_view_refs(view_id: &str) -> (r: SqlQuery)
    ensures
        r@ == (QueryModel {
            sql: "SELECT view_id, ref_kind, ref_name, ref_remote, target_oid FROM operation_view_ref WHERE view_id = ? ORDER BY ref_kind ASC, ref_name ASC, ref_remote ASC"@,
            values: seq![sql::text(view_id@)],
        }),
{
    let mut q = SqlQuery::new("SELECT view_id, ref_kind, ref_name, ref_remote, target_oid FROM operation_view_ref WHERE view_id = ? ORDER BY ref_kind ASC, ref_name ASC, ref_remote ASC");
    q.push_text(view_id);
    q
}

/// Writes a workspace pointer of a view, in the place of the one of its kind.
pub fn upsert_workspace(record: &OperationViewWorkspaceRecord) -> (r: SqlQuery)
    ensures
        r@ == (QueryModel {
            sql: "INSERT INTO operation_view_workspace (view_id, pointer_kind, pointer_value) VALUES (?, ?, ?) ON CONFLICT(view_id, pointer_kind) DO UPDATE SET pointer_value = excluded.pointer_value"@,
            values: seq![
                sql::text(record.view_id@),
                sql::text(record.pointer_kind@),
                sql::text(record.pointer_value@),
            ],
        }),
{
    let mut q = SqlQuery::new("INSERT INTO operation_view_workspace (view_id, pointer_kind, pointer_value) VALUES (?, ?, ?) ON CONFLICT(view_id, pointer_kind) DO UPDATE SET pointer_value = excluded.pointer_value");
    q.push_text(record.view_id.as_str());
    q.push_text(record.pointer_kind.as_str());
    q.push_text(record.pointer_value.as_str());
    q
}

/// The workspace pointers of a view, by kind.
pub fn list_workspace(view_id: &str) -> (r: SqlQuery)
    ensures
        r@ == (QueryModel {
            sql: "SELECT view_id, pointer_kind, pointer_value FROM operation_view_workspace WHERE view_id = ? ORDER BY pointer_kind ASC"@,
            values: seq![sql::text(view_id@)],
        }),
{
    let mut q = SqlQuery::new("SELECT view_id, pointer_kind, pointer_value FROM operation_view_workspace WHERE view_id = ? ORDER BY pointer_kind ASC");
    q.push_text(view_id);
    q
}

} // verus!
