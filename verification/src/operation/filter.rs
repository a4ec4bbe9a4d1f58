//! Which rows of the operation log a question is about.
//!
//! A filter is handed to the database as it stands. What it selects is said
//! here, so that the records that come back are known to be those that were
//! asked for.

use vstd::prelude::*;
use vstd::string::*;

use super::runtime::check_limit;
use super::store::{OperationRow, OperationStatusV2};
use crate::legacy_operation;
use crate::legacy_operation::{
    command_to_list, OperationQueryPage, OperationServiceError, ServiceErrorModel,
};
use crate::sql;
use crate::sql::{QueryModel, SqlQuery};
use crate::text;
use crate::text::{blank, decimal_text};

verus! {

/// The order in which rows are read.
#[derive(Debug, Clone, Copy, PartialEq, Eq, Structural)]
pub enum RowOrder {
    /// By end, start and id, each descending.
    NewestFirst,
    /// By start, ascending.
    OldestFirst,
    Any,
}

/// A question to the operation log. A field without a value does not matter.
#[derive(Debug, PartialEq, Eq)]
pub struct OperationFilter {
    pub op_id: Option<String>,
    pub repo_id: Option<String>,
    pub worktree_id: Option<String>,
    pub command_name: Option<String>,
    pub args_digest: Option<String>,
    pub status: Option<OperationStatusV2>,
    pub earliest_end_ts: Option<i64>,
    pub order: RowOrder,
    pub offset: Option<u64>,
    pub limit: Option<u64>,
}

/// What an [`OperationFilter`] says.
#[verifier::ext_equal]
pub struct FilterModel {
    pub op_id: Option<Seq<char>>,
    pub repo_id: Option<Seq<char>>,
    pub worktree_id: Option<Seq<char>>,
    pub command_name: Option<Seq<char>>,
    pub args_digest: Option<Seq<char>>,
    pub status: Option<OperationStatusV2>,
    pub earliest_end_ts: Option<i64>,
    pub order: RowOrder,
    pub offset: Option<u64>,
    pub limit: Option<u64>,
}

impl View for OperationFilter {
    type V = FilterModel;

    open spec fn view(&self) -> FilterModel {
        FilterModel {
            op_id: text::opt_text(self.op_id),
            repo_id: text::opt_text(self.repo_id),
            worktree_id: text::opt_text(self.worktree_id),
            command_name: text::opt_text(self.command_name),
            args_digest: text::opt_text(self.args_digest),
            status: self.status,
            earliest_end_ts: self.earliest_end_ts,
            order: self.order,
            offset: self.offset,
            limit: self.limit,
        }
    }
}

/// Whether a column holds what is asked for. A column without a value holds
/// nothing that can be asked for.
pub open spec fn holds(wanted: Option<Seq<char>>, found: Option<Seq<char>>) -> bool {
    wanted is None || wanted == found
}

impl FilterModel {
    /// Whether a row is one that is asked for.
    pub open spec fn selects(self, row: OperationRow) -> bool {
        &&& holds(self.op_id, Some(row.op_id@))
        &&& holds(self.repo_id, Some(row.repo_id@))
        &&& holds(self.worktree_id, text::opt_text(row.worktree_id))
        &&& holds(self.command_name, text::opt_text(row.command_name))
        &&& holds(self.args_digest, text::opt_text(row.args_digest))
        &&& match self.status {
            Some(s) => row.status@ == s.name(),
            None => true,
        }
        &&& match self.earliest_end_ts {
            Some(t) => row.end_ts matches Some(end) && end >= t,
            None => true,
        }
    }
}

/// A question about every row.
pub open spec fn everything() -> FilterModel {
    FilterModel {
        op_id: None,
        repo_id: None,
        worktree_id: None,
        command_name: None,
        args_digest: None,
        status: None,
        earliest_end_ts: None,
        order: RowOrder::Any,
        offset: None,
        limit: None,
    }
}

fn ask_everything() -> (r: OperationFilter)
    ensures
        r@ == everything(),
{
    OperationFilter {
        op_id: None,
        repo_id: None,
        worktree_id: None,
        command_name: None,
        args_digest: None,
        status: None,
        earliest_end_ts: None,
        order: RowOrder::Any,
        offset: None,
        limit: None,
    }
}

/// The operation with an id.
pub fn find_operation_record(op_id: &str) -> (r: OperationFilter)
    ensures
        r@ == (FilterModel { op_id: Some(op_id@), ..everything() }),
{
    let mut f = ask_everything();
    f.op_id = Some(op_id.to_owned());
    f
}

/// The newest operations of a repository, up to a number of them.
pub fn list_operation_records(repo_id: &str, limit: u64) -> (r: Result<
    OperationFilter,
    OperationServiceError,
>)
    ensures
        (match r {
            Ok(f) => limit > 0 && f@ == (FilterModel {
                repo_id: Some(repo_id@),
                order: RowOrder::NewestFirst,
                limit: Some(limit),
                ..everything()
            }),
            Err(e) => limit == 0 && e@ == ServiceErrorModel::InvalidArgument(
                "limit must be greater than 0"@,
            ),
        }),
{
    match check_limit(limit) {
        Ok(_) => {},
        Err(e) => {
            return Err(e);
        },
    }
    let mut f = ask_everything();
    f.repo_id = Some(repo_id.to_owned());
    f.order = RowOrder::NewestFirst;
    f.limit = Some(limit);
    Ok(f)
}

/// The question behind [`recent_duplicate_candidates`].
pub open spec fn duplicates(
    repo_id: Seq<char>,
    worktree_id: Option<Seq<char>>,
    command_name: Seq<char>,
    args_digest: Seq<char>,
    earliest_end_ts: i64,
    limit: u64,
) -> FilterModel {
    FilterModel {
        op_id: None,
        repo_id: Some(repo_id),
        worktree_id,
        command_name: Some(command_name),
        args_digest: Some(args_digest),
        status: Some(OperationStatusV2::Success),
        earliest_end_ts: Some(earliest_end_ts),
        order: RowOrder::NewestFirst,
        offset: None,
        limit: Some(limit),
    }
}

/// The newest successes of a command with a digest that ended no earlier than
/// a time: in one worktree, or in the whole repository.
pub fn recent_duplicate_candidates(
    repo_id: &str,
    worktree_id: Option<String>,
    command_name: &str,
    args_digest: &str,
    earliest_end_ts: i64,
    limit: u64,
) -> (r: Result<OperationFilter, OperationServiceError>)
    ensures
        (match r {
            Ok(f) => limit > 0 && f@ == duplicates(
                repo_id@,
                text::opt_text(worktree_id),
                command_name@,
                args_digest@,
                earliest_end_ts,
                limit,
            ),
            Err(e) => limit == 0 && e@ == ServiceErrorModel::InvalidArgument(
                "limit must be greater than 0"@,
            ),
        }),
{
    match check_limit(limit) {
        Ok(_) => {},
        Err(e) => {
            return Err(e);
        },
    }
    Ok(
        OperationFilter {
            op_id: None,
            repo_id: Some(repo_id.to_owned()),
            worktree_id,
            command_name: Some(command_name.to_owned()),
            args_digest: Some(args_digest.to_owned()),
            status: Some(OperationStatusV2::Success),
            earliest_end_ts: Some(earliest_end_ts),
            order: RowOrder::NewestFirst,
            offset: None,
            limit: Some(limit),
        },
    )
}

/// What a page of the log asks for: how many operations there are, and those
/// on the page.
#[derive(Debug, PartialEq, Eq)]
pub struct PageFilter {
    pub count: OperationFilter,
    pub list: OperationFilter,
    pub query: OperationQueryPage,
}

/// The operations that a paged listing counts.
pub open spec fn counted(repo_id: Seq<char>, command_name: Option<Seq<char>>) -> FilterModel {
    FilterModel {
        repo_id: Some(repo_id),
        command_name: legacy_operation::command_filter(command_name),
        ..everything()
    }
}

/// One page of the operations of a repository, newest first: all, or those of
/// one command.
pub fn list_operations_by_repo_paginated(
    repo_id: &str,
    command_name: Option<&str>,
    query: OperationQueryPage,
) -> (r: Result<PageFilter, OperationServiceError>)
    requires
        query.entries_before() <= u64::MAX,
    ensures
        (match r {
            Ok(p) => {
                let all = counted(repo_id@, legacy_operation::opt_str(command_name));
                &&& !text::is_blank(repo_id@)
                &&& p.query == query.within_limits()
                &&& p.count@ == all
                &&& p.list@ == (FilterModel {
                    order: RowOrder::NewestFirst,
                    offset: Some(query.entries_before() as u64),
                    limit: Some(query.within_limits().per_page),
                    ..all
                })
            },
            Err(e) => text::is_blank(repo_id@) && e@ == ServiceErrorModel::InvalidArgument(
                "repo_id must not be empty"@,
            ),
        }),
{
    if blank(repo_id) {
        return Err(OperationServiceError::InvalidArgument("repo_id must not be empty".to_owned()));
    }
    let mut count = ask_everything();
    count.repo_id = Some(repo_id.to_owned());
    count.command_name = command_to_list(command_name);
    let normal = query.normalized();
    let mut list = ask_everything();
    list.repo_id = Some(repo_id.to_owned());
    list.command_name = command_to_list(command_name);
    list.order = RowOrder::NewestFirst;
    list.offset = Some(query.offset());
    list.limit = Some(normal.per_page);
    Ok(PageFilter { count, list, query: normal })
}

/// The operation that has been running the longest in a worktree.
pub fn running_control(repo_id: &str, worktree_id: &str) -> (r: OperationFilter)
    ensures
        r@ == (FilterModel {
            repo_id: Some(repo_id@),
            worktree_id: Some(worktree_id@),
            status: Some(OperationStatusV2::Running),
            order: RowOrder::OldestFirst,
            limit: Some(1),
            ..everything()
        }),
{
    let mut f = ask_everything();
    f.repo_id = Some(repo_id.to_owned());
    f.worktree_id = Some(worktree_id.to_owned());
    f.status = Some(OperationStatusV2::Running);
    f.order = RowOrder::OldestFirst;
    f.limit = Some(1);
    f
}

/// Marks an operation that is given up as failed, where it still runs.
pub fn abandon(op_id: &str, end_ts: i64) -> (r: SqlQuery)
    ensures
        r@ == (QueryModel {
            sql: "UPDATE operation SET status = 'failed', end_ts = ? WHERE op_id = ? AND status = 'running'"@,
            values: seq![sql::number(end_ts), sql::text(op_id@)],
        }),
{
    let mut q = SqlQuery::new(
        "UPDATE operation SET status = 'failed', end_ts = ? WHERE op_id = ? AND status = 'running'",
    );
    q.push_number(end_ts);
    q.push_text(op_id);
    q
}

//// Statements

/// A statement with one more condition on a column, where there is one.
#[verifier::opaque]
pub open spec fn narrowed(q: QueryModel, condition: Seq<char>, wanted: Option<Seq<char>>) -> QueryModel {
    match wanted {
        Some(w) => QueryModel { sql: q.sql + condition, values: q.values.push(sql::text(w)) },
        None => q,
    }
}

/// The name of a status, where there is one.
pub open spec fn status_name(status: Option<OperationStatusV2>) -> Option<Seq<char>> {
    match status {
        Some(s) => Some(s.name()),
        None => None,
    }
}

impl FilterModel {
    /// The statement that asks for `what` of the rows that are selected, each
    /// condition with the value that it compares with.
    pub open spec fn conditions(self, what: Seq<char>) -> QueryModel {
        let q = QueryModel {
            sql: "SELECT "@ + what + " FROM operation WHERE 1=1"@,
            values: Seq::empty(),
        };
        let q = narrowed(q, " AND op_id = ?"@, self.op_id);
        let q = narrowed(q, " AND repo_id = ?"@, self.repo_id);
        let q = narrowed(q, " AND worktree_id = ?"@, self.worktree_id);
        let q = narrowed(q, " AND command_name = ?"@, self.command_name);
        let q = narrowed(q, " AND args_digest = ?"@, self.args_digest);
        let q = narrowed(q, " AND status = ?"@, status_name(self.status));
        match self.earliest_end_ts {
            Some(t) => QueryModel {
                sql: q.sql + " AND end_ts >= ?"@,
                values: q.values.push(sql::number(t)),
            },
            None => q,
        }
    }

    /// In what order, and which of the rows in that order.
    pub open spec fn window(self) -> Seq<char> {
        (match self.order {
            RowOrder::NewestFirst => " ORDER BY end_ts DESC, start_ts DESC, op_id DESC"@,
            RowOrder::OldestFirst => " ORDER BY start_ts ASC"@,
            RowOrder::Any => Seq::empty(),
        }) + (match self.limit {
            Some(n) => " LIMIT "@ + text::decimal(n as nat) + (match self.offset {
                Some(skipped) => " OFFSET "@ + text::decimal(skipped as nat),
                None => Seq::empty(),
            }),
            None => Seq::empty(),
        })
    }

    /// The whole statement.
    pub open spec fn statement(self, what: Seq<char>) -> QueryModel {
        let q = self.conditions(what);
        QueryModel { sql: q.sql + self.window(), ..q }
    }
}

fn narrow(q: &mut SqlQuery, condition: &str, wanted: &Option<String>)
    ensures
        final(q)@ == narrowed(old(q)@, condition@, text::opt_text(*wanted)),
{
    reveal(narrowed);
    if let Some(w) = wanted {
        q.push_sql(condition);
        q.push_text(w.as_str());
    }
}

impl OperationFilter {
    fn ask(&self, what: &str) -> (r: SqlQuery)
        ensures
            r@ == self@.conditions(what@),
    {
        let mut q = SqlQuery::new("SELECT ");
        q.push_sql(what);
        q.push_sql(" FROM operation WHERE 1=1");
        narrow(&mut q, " AND op_id = ?", &self.op_id);
        narrow(&mut q, " AND repo_id = ?", &self.repo_id);
        narrow(&mut q, " AND worktree_id = ?", &self.worktree_id);
        narrow(&mut q, " AND command_name = ?", &self.command_name);
        narrow(&mut q, " AND args_digest = ?", &self.args_digest);
        let status = match self.status {
            Some(s) => Some(s.as_str().to_owned()),
            None => None,
        };
        assert(text::opt_text(status) == status_name(self.status));
        narrow(&mut q, " AND status = ?", &status);
        if let Some(t) = self.earliest_end_ts {
            q.push_sql(" AND end_ts >= ?");
            q.push_number(t);
        }
        q
    }

    fn window(&self) -> (r: String)
        ensures
            r@ == self@.window(),
    {
        let mut out = match self.order {
            RowOrder::NewestFirst => " ORDER BY end_ts DESC, start_ts DESC, op_id DESC".to_owned(),
            RowOrder::OldestFirst => " ORDER BY start_ts ASC".to_owned(),
            RowOrder::Any => String::new(),
        };
        if let Some(n) = self.limit {
            out.append(" LIMIT ");
            out.append(decimal_text(n).as_str());
            if let Some(skipped) = self.offset {
                out.append(" OFFSET ");
                out.append(decimal_text(skipped).as_str());
            }
        }
        assert(out@ =~= self@.window());
        out
    }

    /// The statement that asks for `what`, a list of columns or a count of the
    /// rows. Rows past an offset are left out only where there is a limit.
    pub fn statement(&self, what: &str) -> (r: SqlQuery)
        ensures
            r@ == self@.statement(what@),
    {
        let mut q = self.ask(what);
        q.push_sql(self.window().as_str());
        q
    }
}

//// Laws

/// A candidate for a duplicate is a success of the same command with the same
/// digest in the same repository, that ended late enough.
pub proof fn law_duplicates_are_recent_successes(
    row: OperationRow,
    repo_id: Seq<char>,
    worktree_id: Option<Seq<char>>,
    command_name: Seq<char>,
    args_digest: Seq<char>,
    earliest_end_ts: i64,
    limit: u64,
)
    ensures
        duplicates(
            repo_id,
            worktree_id,
            command_name,
            args_digest,
            earliest_end_ts,
            limit,
        ).selects(row) <==> {
            &&& row.repo_id@ == repo_id
            &&& worktree_id is None || text::opt_text(row.worktree_id) == worktree_id
            &&& text::opt_text(row.command_name) == Some(command_name)
            &&& text::opt_text(row.args_digest) == Some(args_digest)
            &&& row.status@ == "success"@
            &&& row.end_ts is Some && row.end_ts->0 >= earliest_end_ts
        },
{
}

/// A page lists operations that its total counts.
pub proof fn law_pages_list_what_they_count(
    row: OperationRow,
    repo_id: Seq<char>,
    command_name: Option<Seq<char>>,
    offset: u64,
    limit: u64,
)
    ensures
        (FilterModel {
            order: RowOrder::NewestFirst,
            offset: Some(offset),
            limit: Some(limit),
            ..counted(repo_id, command_name)
        }).selects(row) == counted(repo_id, command_name).selects(row),
{
}

} // verus!
