//! What the statements of the operation log ask for.

use vstd::prelude::*;

use super::filter;
use super::filter::{FilterModel, RowOrder};
use super::store::{OperationRow, OperationStatusV2};
use crate::session_laws;
use crate::session_laws::{clauses_text, clauses_values, Clause};
use crate::sql::{QueryModel, SqlModel};
use crate::text;

verus! {

/// The column that a condition speaks of.
pub open spec fn column(condition: Seq<char>, row: OperationRow) -> Option<Seq<char>> {
    if condition == " AND op_id = ?"@ {
        Some(row.op_id@)
    } else if condition == " AND repo_id = ?"@ {
        Some(row.repo_id@)
    } else if condition == " AND worktree_id = ?"@ {
        text::opt_text(row.worktree_id)
    } else if condition == " AND command_name = ?"@ {
        text::opt_text(row.command_name)
    } else if condition == " AND args_digest = ?"@ {
        text::opt_text(row.args_digest)
    } else if condition == " AND status = ?"@ {
        Some(row.status@)
    } else {
        None
    }
}

/// What SQL says of a row with a condition. A column without a value is equal
/// to nothing, and later than nothing.
pub open spec fn condition_holds(c: Clause, row: OperationRow) -> bool {
    if c.condition == " AND end_ts >= ?"@ {
        &&& c.values.len() == 1
        &&& c.values[0] matches SqlModel::BigInt(Some(t))
        &&& row.end_ts matches Some(end)
        &&& end >= t
    } else {
        &&& c.values.len() == 1
        &&& c.values[0] matches SqlModel::Text(Some(w))
        &&& column(c.condition, row) == Some(w)
    }
}

/// Whether every condition holds of a row.
pub open spec fn conditions_hold(cs: Seq<Clause>, row: OperationRow) -> bool {
    forall|i: int| 0 <= i < cs.len() ==> condition_holds(#[trigger] cs[i], row)
}

/// Whether a statement asks for `what` of the rows of which every condition
/// holds, in an order and a window.
pub open spec fn asks(q: QueryModel, what: Seq<char>, cs: Seq<Clause>, window: Seq<char>) -> bool {
    &&& q.sql == "SELECT "@ + what + " FROM operation WHERE 1=1"@ + clauses_text(cs) + window
    &&& q.values == clauses_values(cs)
}

/// The order that a statement asks for.
pub open spec fn order_text(order: RowOrder) -> Seq<char> {
    match order {
        RowOrder::NewestFirst => " ORDER BY end_ts DESC, start_ts DESC, op_id DESC"@,
        RowOrder::OldestFirst => " ORDER BY start_ts ASC"@,
        RowOrder::Any => Seq::empty(),
    }
}

/// Whether a row has the status.
pub open spec fn has_status(row: OperationRow, s: OperationStatusV2) -> bool {
    match s {
        OperationStatusV2::Running => row.status@ == "running"@,
        OperationStatusV2::Success => row.status@ == "success"@,
        OperationStatusV2::Failed => row.status@ == "failed"@,
        OperationStatusV2::Partial => row.status@ == "partial"@,
        OperationStatusV2::Aborted => row.status@ == "aborted"@,
    }
}

/// Whether a row is one that is asked for.
pub open spec fn is_asked_for(f: FilterModel, row: OperationRow) -> bool {
    &&& f.op_id matches Some(v) ==> row.op_id@ == v
    &&& f.repo_id matches Some(v) ==> row.repo_id@ == v
    &&& f.worktree_id matches Some(v) ==> row.worktree_id matches Some(w) && w@ == v
    &&& f.command_name matches Some(v) ==> row.command_name matches Some(w) && w@ == v
    &&& f.args_digest matches Some(v) ==> row.args_digest matches Some(w) && w@ == v
    &&& f.status matches Some(s) ==> has_status(row, s)
    &&& f.earliest_end_ts matches Some(t) ==> row.end_ts matches Some(end) && end >= t
}

/// The statement of a filter asks for the rows that the filter selects, and for
/// no others, in the order of the filter; a limit and an offset are given as
/// numbers.
pub proof fn law_statement_asks_for_what_is_selected(f: FilterModel, what: Seq<char>)
    ensures
        exists|cs: Seq<Clause>| {
            &&& #[trigger] asks(f.statement(what), what, cs, f.window())
            &&& forall|row: OperationRow| #[trigger]
                conditions_hold(cs, row) <==> is_asked_for(f, row)
        },
        forall|row: OperationRow| #[trigger] f.selects(row) <==> is_asked_for(f, row),
        order_text(f.order).is_prefix_of(f.window()),
        f.limit is None ==> f.window() == order_text(f.order),
        f.limit matches Some(n) ==> f.offset is None ==> f.window() == order_text(f.order)
            + " LIMIT "@ + text::decimal(n as nat),
        f.limit matches Some(n) ==> f.offset matches Some(k) ==> f.window() == order_text(f.order)
            + " LIMIT "@ + text::decimal(n as nat) + " OFFSET "@ + text::decimal(k as nat),
{
    let none = Seq::<Clause>::empty();
    let q0 = QueryModel {
        sql: "SELECT "@ + what + " FROM operation WHERE 1=1"@,
        values: Seq::empty(),
    };
    assert(clauses_text(none) =~= Seq::<char>::empty());
    assert(clauses_values(none) =~= Seq::<SqlModel>::empty());
    assert(q0.sql + clauses_text(none) =~= q0.sql);
    lemma_conditions_apart();
    let c1 = lemma_narrow(q0, q0, none, " AND op_id = ?"@, f.op_id);
    let q1 = filter::narrowed(q0, " AND op_id = ?"@, f.op_id);
    let c2 = lemma_narrow(q0, q1, c1, " AND repo_id = ?"@, f.repo_id);
    let q2 = filter::narrowed(q1, " AND repo_id = ?"@, f.repo_id);
    let c3 = lemma_narrow(q0, q2, c2, " AND worktree_id = ?"@, f.worktree_id);
    let q3 = filter::narrowed(q2, " AND worktree_id = ?"@, f.worktree_id);
    let c4 = lemma_narrow(q0, q3, c3, " AND command_name = ?"@, f.command_name);
    let q4 = filter::narrowed(q3, " AND command_name = ?"@, f.command_name);
    let c5 = lemma_narrow(q0, q4, c4, " AND args_digest = ?"@, f.args_digest);
    let q5 = filter::narrowed(q4, " AND args_digest = ?"@, f.args_digest);
    let wanted = filter::status_name(f.status);
    let c6 = lemma_narrow(q0, q5, c5, " AND status = ?"@, wanted);
    let q6 = filter::narrowed(q5, " AND status = ?"@, wanted);
    let cs = match f.earliest_end_ts {
        Some(t) => c6.push(
            Clause {
                condition: " AND end_ts >= ?"@,
                values: seq![SqlModel::BigInt(Some(t))],
            },
        ),
        None => c6,
    };
    if let Some(t) = f.earliest_end_ts {
        let c = Clause {
            condition: " AND end_ts >= ?"@,
            values: seq![SqlModel::BigInt(Some(t))],
        };
        session_laws::lemma_clause_push(c6, c);
        lemma_conditions_push(c6, c);
        assert(f.conditions(what).sql =~= q0.sql + clauses_text(cs));
        assert(f.conditions(what).values =~= clauses_values(cs));
    }
    assert(f.statement(what).sql =~= q0.sql + clauses_text(cs) + f.window());
    assert(asks(f.statement(what), what, cs, f.window()));
    assert forall|row: OperationRow| #[trigger] conditions_hold(cs, row) <==> is_asked_for(
        f,
        row,
    ) by {
        assert(conditions_hold(none, row));
        assert(conditions_hold(c1, row) || !conditions_hold(c1, row));
        assert(conditions_hold(c2, row) || !conditions_hold(c2, row));
        assert(conditions_hold(c3, row) || !conditions_hold(c3, row));
        assert(conditions_hold(c4, row) || !conditions_hold(c4, row));
        assert(conditions_hold(c5, row) || !conditions_hold(c5, row));
        assert(conditions_hold(c6, row) || !conditions_hold(c6, row));
    }
    assert(f.window().subrange(0, order_text(f.order).len() as int) =~= order_text(f.order));
    assert(f.limit is None ==> f.window() =~= order_text(f.order));
    if let Some(n) = f.limit {
        if let Some(k) = f.offset {
            assert(f.window() =~= order_text(f.order) + " LIMIT "@ + text::decimal(n as nat)
                + " OFFSET "@ + text::decimal(k as nat));
        } else {
            assert(f.window() =~= order_text(f.order) + " LIMIT "@ + text::decimal(n as nat));
        }
    }
}

/// The conditions differ.
proof fn lemma_conditions_apart()
    ensures
        " AND op_id = ?"@.len() == 14,
        " AND repo_id = ?"@.len() == 16,
        " AND worktree_id = ?"@.len() == 20,
        " AND command_name = ?"@.len() == 21,
        " AND args_digest = ?"@.len() == 20,
        " AND args_digest = ?"@[5] == 'a',
        " AND worktree_id = ?"@[5] == 'w',
        " AND status = ?"@.len() == 15,
        " AND end_ts >= ?"@.len() == 16,
        " AND end_ts >= ?"@[5] == 'e',
        " AND repo_id = ?"@[5] == 'r',
{
    reveal_strlit(" AND op_id = ?");
    reveal_strlit(" AND repo_id = ?");
    reveal_strlit(" AND worktree_id = ?");
    reveal_strlit(" AND command_name = ?");
    reveal_strlit(" AND args_digest = ?");
    reveal_strlit(" AND status = ?");
    reveal_strlit(" AND end_ts >= ?");
}

proof fn lemma_conditions_push(cs: Seq<Clause>, c: Clause)
    ensures
        forall|row: OperationRow| #[trigger]
            conditions_hold(cs.push(c), row) <==> conditions_hold(cs, row) && condition_holds(
                c,
                row,
            ),
{
    assert forall|row: OperationRow| #[trigger]
        conditions_hold(cs.push(c), row) <==> conditions_hold(cs, row) && condition_holds(
            c,
            row,
        ) by {
        let all = cs.push(c);
        assert(all[cs.len() as int] == c);
        if conditions_hold(all, row) {
            assert forall|i: int| 0 <= i < cs.len() implies condition_holds(
                #[trigger] cs[i],
                row,
            ) by {
                assert(all[i] == cs[i]);
            }
        }
    }
}

proof fn lemma_narrow(
    q0: QueryModel,
    q: QueryModel,
    cs: Seq<Clause>,
    condition: Seq<char>,
    wanted: Option<Seq<char>>,
) -> (r: Seq<Clause>)
    requires
        q.sql == q0.sql + clauses_text(cs),
        q.values == clauses_values(cs),
        condition != " AND end_ts >= ?"@,
    ensures
        filter::narrowed(q, condition, wanted).sql == q0.sql + clauses_text(r),
        filter::narrowed(q, condition, wanted).values == clauses_values(r),
        forall|row: OperationRow| #[trigger]
            conditions_hold(r, row) <==> conditions_hold(cs, row) && (wanted matches Some(w)
                ==> column(condition, row) == Some(w)),
{
    reveal(filter::narrowed);
    match wanted {
        Some(w) => {
            let c = Clause { condition, values: seq![SqlModel::Text(Some(w))] };
            session_laws::lemma_clause_push(cs, c);
            lemma_conditions_push(cs, c);
            let r = cs.push(c);
            assert(filter::narrowed(q, condition, wanted).sql =~= q0.sql + clauses_text(r));
            assert(filter::narrowed(q, condition, wanted).values =~= clauses_values(r));
            r
        },
        None => cs,
    }
}

} // verus!
