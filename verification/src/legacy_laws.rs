//! What records of operations have to be, and what their lists ask for.

use vstd::prelude::*;

use crate::legacy_operation;
use crate::legacy_operation::{
    GraphModel, ParentModel, RecordModel, ViewModel, ViewRefModel, ViewWorkspaceModel,
    V2_OPERATION_SELECT,
};
use crate::operation::filter_laws;
use crate::operation::store::OperationRow;
use crate::session_laws;
use crate::session_laws::{clauses_text, clauses_values, Clause};
use crate::sql::{QueryModel, SqlModel};
use crate::text;

verus! {

//// Checks

/// Whether a text says something.
pub open spec fn is_given(s: Seq<char>) -> bool {
    exists|i: int| 0 <= i < s.len() && !text::is_white(#[trigger] s[i])
}

proof fn lemma_given(s: Seq<char>)
    ensures
        is_given(s) <==> !text::is_blank(s),
{
}

/// A record passes its check exactly where it says what it is of and its times
/// are in order.
pub proof fn law_sound_record_passes(m: RecordModel)
    ensures
        m.fault() is None <==> {
            &&& is_given(m.op_id)
            &&& is_given(m.repo_id)
            &&& is_given(m.command_name)
            &&& m.start_ts >= 0
            &&& m.end_ts matches Some(end) ==> end >= m.start_ts
        },
{
    lemma_given(m.op_id);
    lemma_given(m.repo_id);
    lemma_given(m.command_name);
}

/// A parent edge passes exactly where it joins two operations that differ.
pub proof fn law_sound_parent_passes(m: ParentModel)
    ensures
        m.fault() is None <==> is_given(m.op_id) && is_given(m.parent_op_id) && m.op_id
            != m.parent_op_id,
{
    lemma_given(m.op_id);
    lemma_given(m.parent_op_id);
}

/// A view passes exactly where it says what it is of and where its head is.
pub proof fn law_sound_view_passes(m: ViewModel)
    ensures
        m.fault() is None <==> {
            &&& is_given(m.view_id)
            &&& is_given(m.repo_id)
            &&& is_given(m.head_kind)
            &&& is_given(m.head_target)
            &&& m.created_at >= 0
        },
{
    lemma_given(m.view_id);
    lemma_given(m.repo_id);
    lemma_given(m.head_kind);
    lemma_given(m.head_target);
}

/// A reference passes exactly where it says what it is of and where it points,
/// and so does a workspace pointer.
pub proof fn law_sound_pointers_pass(r: ViewRefModel, w: ViewWorkspaceModel)
    ensures
        r.fault() is None <==> is_given(r.view_id) && is_given(r.ref_kind) && is_given(r.ref_name)
            && is_given(r.target_oid),
        w.fault() is None <==> is_given(w.view_id) && is_given(w.pointer_kind) && is_given(
            w.pointer_value,
        ),
{
    lemma_given(r.view_id);
    lemma_given(r.ref_kind);
    lemma_given(r.ref_name);
    lemma_given(r.target_oid);
    lemma_given(w.view_id);
    lemma_given(w.pointer_kind);
    lemma_given(w.pointer_value);
}

proof fn lemma_parents(s: Seq<ParentModel>, op_id: Seq<char>)
    ensures
        legacy_operation::parents_fault(s, op_id) is None <==> forall|i: int|
            0 <= i < s.len() ==> (#[trigger] s[i]).fault() is None && s[i].op_id == op_id,
    decreases s.len(),
{
    if s.len() > 0 {
        let rest = s.drop_first();
        lemma_parents(rest, op_id);
        if forall|i: int| 0 <= i < s.len() ==> (#[trigger] s[i]).fault() is None && s[i].op_id
            == op_id {
            assert forall|i: int| 0 <= i < rest.len() implies (#[trigger] rest[i]).fault() is None
                && rest[i].op_id == op_id by {
                assert(rest[i] == s[i + 1]);
            }
        }
        if legacy_operation::parents_fault(s, op_id) is None {
            assert forall|i: int| 0 <= i < s.len() implies (#[trigger] s[i]).fault() is None
                && s[i].op_id == op_id by {
                if i > 0 {
                    assert(s[i] == rest[i - 1]);
                }
            }
        }
    }
}

proof fn lemma_refs(s: Seq<ViewRefModel>, view_id: Seq<char>, foreign: Seq<char>)
    ensures
        legacy_operation::refs_fault(s, view_id, foreign) is None <==> forall|i: int|
            0 <= i < s.len() ==> (#[trigger] s[i]).fault() is None && s[i].view_id == view_id,
    decreases s.len(),
{
    if s.len() > 0 {
        let rest = s.drop_first();
        lemma_refs(rest, view_id, foreign);
        if forall|i: int| 0 <= i < s.len() ==> (#[trigger] s[i]).fault() is None && s[i].view_id
            == view_id {
            assert forall|i: int| 0 <= i < rest.len() implies (#[trigger] rest[i]).fault() is None
                && rest[i].view_id == view_id by {
                assert(rest[i] == s[i + 1]);
            }
        }
        if legacy_operation::refs_fault(s, view_id, foreign) is None {
            assert forall|i: int| 0 <= i < s.len() implies (#[trigger] s[i]).fault() is None
                && s[i].view_id == view_id by {
                if i > 0 {
                    assert(s[i] == rest[i - 1]);
                }
            }
        }
    }
}

proof fn lemma_workspace(s: Seq<ViewWorkspaceModel>, view_id: Seq<char>)
    ensures
        legacy_operation::workspace_fault(s, view_id) is None <==> forall|i: int|
            0 <= i < s.len() ==> (#[trigger] s[i]).fault() is None && s[i].view_id == view_id,
    decreases s.len(),
{
    if s.len() > 0 {
        let rest = s.drop_first();
        lemma_workspace(rest, view_id);
        if forall|i: int| 0 <= i < s.len() ==> (#[trigger] s[i]).fault() is None && s[i].view_id
            == view_id {
            assert forall|i: int| 0 <= i < rest.len() implies (#[trigger] rest[i]).fault() is None
                && rest[i].view_id == view_id by {
                assert(rest[i] == s[i + 1]);
            }
        }
        if legacy_operation::workspace_fault(s, view_id) is None {
            assert forall|i: int| 0 <= i < s.len() implies (#[trigger] s[i]).fault() is None
                && s[i].view_id == view_id by {
                if i > 0 {
                    assert(s[i] == rest[i - 1]);
                }
            }
        }
    }
}

/// A graph passes its check exactly where all of its records do, and all of
/// them belong to its operation and its view.
pub proof fn law_sound_graph_passes(g: GraphModel)
    ensures
        g.fault() is None <==> {
            &&& g.operation.fault() is None
            &&& g.view.fault() is None
            &&& g.operation.view_id == g.view.view_id
            &&& g.operation.repo_id == g.view.repo_id
            &&& forall|i: int|
                0 <= i < g.parents.len() ==> (#[trigger] g.parents[i]).fault() is None
                    && g.parents[i].op_id == g.operation.op_id
            &&& forall|i: int|
                0 <= i < g.refs.len() ==> (#[trigger] g.refs[i]).fault() is None
                    && g.refs[i].view_id == g.view.view_id
            &&& forall|i: int|
                0 <= i < g.workspace.len() ==> (#[trigger] g.workspace[i]).fault() is None
                    && g.workspace[i].view_id == g.view.view_id
        },
{
    lemma_parents(g.parents, g.operation.op_id);
    lemma_refs(g.refs, g.view.view_id, "all view refs must belong to view.view_id"@);
    lemma_workspace(g.workspace, g.view.view_id);
}

//// Lists

/// A list asks for the operations of a repository, of one command or of all,
/// newest first and as many as it shall hold; and its total counts exactly the
/// operations that the list goes through.
pub proof fn law_total_counts_what_is_listed(
    repo_id: Seq<char>,
    command_name: Option<Seq<char>>,
    limit: u64,
    offset: Option<u64>,
)
    ensures
        exists|cs: Seq<Clause>| #[trigger]
            lists(
                legacy_operation::list_statement(repo_id, command_name, limit, offset),
                legacy_operation::count_statement(repo_id, command_name),
                repo_id,
                cs,
                limit,
                offset,
            ) && forall|row: OperationRow| #[trigger]
                filter_laws::conditions_hold(cs, row) <==> (command_name matches Some(c)
                    ==> row.command_name matches Some(w) && w@ == c),
{
    let none = Seq::<Clause>::empty();
    assert(clauses_text(none) =~= Seq::<char>::empty());
    assert(clauses_values(none) =~= Seq::<SqlModel>::empty());
    reveal_strlit(" AND command_name = ?");
    reveal_strlit(" AND op_id = ?");
    reveal_strlit(" AND repo_id = ?");
    reveal_strlit(" AND worktree_id = ?");
    reveal_strlit(" AND end_ts >= ?");
    assert(" AND command_name = ?"@.len() == 21 && " AND end_ts >= ?"@.len() == 16
        && " AND op_id = ?"@.len() == 14 && " AND repo_id = ?"@.len() == 16
        && " AND worktree_id = ?"@.len() == 20);
    reveal_strlit("SELECT COUNT(*) FROM operation WHERE repo_id = ? AND command_name = ?");
    reveal_strlit("SELECT COUNT(*) FROM operation WHERE repo_id = ?");
    let list = legacy_operation::list_statement(repo_id, command_name, limit, offset);
    let count = legacy_operation::count_statement(repo_id, command_name);
    let cs = match command_name {
        Some(c) => seq![
            Clause { condition: " AND command_name = ?"@, values: seq![SqlModel::Text(Some(c))] },
        ],
        None => none,
    };
    if let Some(c) = command_name {
        let clause = Clause {
            condition: " AND command_name = ?"@,
            values: seq![SqlModel::Text(Some(c))],
        };
        assert(cs =~= none.push(clause));
        session_laws::lemma_clause_push(none, clause);
        assert(clauses_text(cs) =~= " AND command_name = ?"@);
        assert(clauses_values(cs) =~= seq![SqlModel::Text(Some(c))]);
        assert("SELECT COUNT(*) FROM operation WHERE repo_id = ? AND command_name = ?"@
            =~= "SELECT COUNT(*) FROM operation WHERE repo_id = ?"@ + " AND command_name = ?"@);
    }
    assert(count.sql =~= "SELECT COUNT(*) FROM operation WHERE repo_id = ?"@ + clauses_text(cs));
    assert(count.values =~= seq![SqlModel::Text(Some(repo_id))] + clauses_values(cs));
    let tail = match offset {
        Some(o) => seq![SqlModel::BigInt(Some(limit as i64)), SqlModel::BigInt(Some(o as i64))],
        None => seq![SqlModel::BigInt(Some(limit as i64))],
    };
    assert(list.values =~= seq![SqlModel::Text(Some(repo_id))] + clauses_values(cs) + tail);
    assert(list.sql =~= V2_OPERATION_SELECT@ + " WHERE repo_id = ?"@ + clauses_text(cs)
        + " ORDER BY end_ts DESC, start_ts DESC, op_id DESC LIMIT ?"@ + past(offset));
    assert(lists(list, count, repo_id, cs, limit, offset));
    assert forall|row: OperationRow| #[trigger] filter_laws::conditions_hold(cs, row) <==> (
    command_name matches Some(c) ==> row.command_name matches Some(w) && w@ == c) by {
        if let Some(c) = command_name {
            assert(cs[0].values.len() == 1 && cs[0].values[0] == SqlModel::Text(Some(c)));
        }
    }
}

/// What asks for a list past an offset.
pub open spec fn past(offset: Option<u64>) -> Seq<char> {
    if offset is Some {
        " OFFSET ?"@
    } else {
        Seq::empty()
    }
}

/// Whether two statements list and count the operations of a repository of
/// which every condition holds.
pub open spec fn lists(
    list: QueryModel,
    count: QueryModel,
    repo_id: Seq<char>,
    cs: Seq<Clause>,
    limit: u64,
    offset: Option<u64>,
) -> bool {
    &&& count.sql == "SELECT COUNT(*) FROM operation WHERE repo_id = ?"@ + clauses_text(cs)
    &&& count.values == seq![SqlModel::Text(Some(repo_id))] + clauses_values(cs)
    &&& list.sql == V2_OPERATION_SELECT@ + " WHERE repo_id = ?"@ + clauses_text(cs)
        + " ORDER BY end_ts DESC, start_ts DESC, op_id DESC LIMIT ?"@ + past(offset)
    &&& list.values == seq![SqlModel::Text(Some(repo_id))] + clauses_values(cs) + match offset {
        Some(o) => seq![SqlModel::BigInt(Some(limit as i64)), SqlModel::BigInt(Some(o as i64))],
        None => seq![SqlModel::BigInt(Some(limit as i64))],
    }
}

/// What SQL says of a row with a condition of a search for duplicates.
pub open spec fn duplicate_holds(c: Clause, row: OperationRow) -> bool {
    if c.condition == " AND status IN ('success', 'succeeded')"@ {
        c.values.len() == 0 && (row.status@ == "success"@ || row.status@ == "succeeded"@)
    } else {
        filter_laws::condition_holds(c, row)
    }
}

/// The conditions of a search for duplicates: of the same command with the same
/// arguments, successful, ended no earlier than a time, and in one worktree
/// where that is asked for.
pub open spec fn duplicate_clauses(
    worktree_id: Option<Seq<char>>,
    command_name: Seq<char>,
    args_digest: Seq<char>,
    earliest_end_ts: i64,
) -> Seq<Clause> {
    let first = seq![
        Clause {
            condition: " AND command_name = ?"@,
            values: seq![SqlModel::Text(Some(command_name))],
        },
        Clause {
            condition: " AND args_digest = ?"@,
            values: seq![SqlModel::Text(Some(args_digest))],
        },
        Clause { condition: " AND status IN ('success', 'succeeded')"@, values: Seq::empty() },
        Clause {
            condition: " AND end_ts >= ?"@,
            values: seq![SqlModel::BigInt(Some(earliest_end_ts))],
        },
    ];
    match worktree_id {
        Some(w) => first.push(
            Clause { condition: " AND worktree_id = ?"@, values: seq![SqlModel::Text(Some(w))] },
        ),
        None => first,
    }
}

/// A search for duplicates asks for the newest operations of a repository of
/// which every such condition holds, each with its own value.
pub proof fn law_duplicates_are_asked_for(
    repo_id: Seq<char>,
    worktree_id: Option<Seq<char>>,
    command_name: Seq<char>,
    args_digest: Seq<char>,
    earliest_end_ts: i64,
    limit: u64,
)
    ensures
        ({
            let q = legacy_operation::duplicates_statement(
                repo_id,
                worktree_id,
                command_name,
                args_digest,
                earliest_end_ts,
                limit,
            );
            let cs = duplicate_clauses(worktree_id, command_name, args_digest, earliest_end_ts);
            &&& q.sql == V2_OPERATION_SELECT@ + " WHERE repo_id = ?"@ + clauses_text(cs)
                + " ORDER BY end_ts DESC, start_ts DESC, op_id DESC LIMIT ?"@
            &&& q.values == seq![SqlModel::Text(Some(repo_id))] + clauses_values(cs) + seq![
                SqlModel::BigInt(Some(limit as i64)),
            ]
        }),
{
    reveal_strlit(" AND command_name = ?");
    reveal_strlit(" AND args_digest = ?");
    reveal_strlit(" AND status IN ('success', 'succeeded')");
    reveal_strlit(" AND end_ts >= ?");
    reveal_strlit(" WHERE repo_id = ?");
    reveal_strlit(
        " WHERE repo_id = ? AND command_name = ? AND args_digest = ? AND status IN ('success', 'succeeded') AND end_ts >= ?",
    );
    let first = duplicate_clauses(None, command_name, args_digest, earliest_end_ts);
    let none = Seq::<Clause>::empty();
    assert(clauses_text(none) =~= Seq::<char>::empty());
    assert(clauses_values(none) =~= Seq::<SqlModel>::empty());
    session_laws::lemma_clause_push(none, first[0]);
    let c1 = none.push(first[0]);
    session_laws::lemma_clause_push(c1, first[1]);
    let c2 = c1.push(first[1]);
    session_laws::lemma_clause_push(c2, first[2]);
    let c3 = c2.push(first[2]);
    session_laws::lemma_clause_push(c3, first[3]);
    assert(first =~= c3.push(first[3]));
    assert(clauses_text(first) =~= " AND command_name = ?"@ + " AND args_digest = ?"@
        + " AND status IN ('success', 'succeeded')"@ + " AND end_ts >= ?"@);
    assert(clauses_values(first) =~= seq![
        SqlModel::Text(Some(command_name)),
        SqlModel::Text(Some(args_digest)),
        SqlModel::BigInt(Some(earliest_end_ts)),
    ]);
    assert(" WHERE repo_id = ? AND command_name = ? AND args_digest = ? AND status IN ('success', 'succeeded') AND end_ts >= ?"@
        =~= " WHERE repo_id = ?"@ + clauses_text(first));
    let cs = duplicate_clauses(worktree_id, command_name, args_digest, earliest_end_ts);
    if let Some(w) = worktree_id {
        session_laws::lemma_clause_push(
            first,
            Clause { condition: " AND worktree_id = ?"@, values: seq![SqlModel::Text(Some(w))] },
        );
    }
    let q = legacy_operation::duplicates_statement(
        repo_id,
        worktree_id,
        command_name,
        args_digest,
        earliest_end_ts,
        limit,
    );
    assert(q.sql =~= V2_OPERATION_SELECT@ + " WHERE repo_id = ?"@ + clauses_text(cs)
        + " ORDER BY end_ts DESC, start_ts DESC, op_id DESC LIMIT ?"@);
    assert(q.values =~= seq![SqlModel::Text(Some(repo_id))] + clauses_values(cs) + seq![
        SqlModel::BigInt(Some(limit as i64)),
    ]);
}

/// A candidate for a duplicate is of the same command with the same arguments,
/// was a success and ended late enough, in the worktree that is asked for.
pub proof fn law_duplicates_are_alike(
    worktree_id: Option<Seq<char>>,
    command_name: Seq<char>,
    args_digest: Seq<char>,
    earliest_end_ts: i64,
    row: OperationRow,
)
    ensures
        ({
            let cs = duplicate_clauses(worktree_id, command_name, args_digest, earliest_end_ts);
            (forall|i: int| 0 <= i < cs.len() ==> duplicate_holds(#[trigger] cs[i], row)) <==> {
                &&& row.command_name matches Some(c) && c@ == command_name
                &&& row.args_digest matches Some(d) && d@ == args_digest
                &&& row.status@ == "success"@ || row.status@ == "succeeded"@
                &&& row.end_ts matches Some(end) && end >= earliest_end_ts
                &&& worktree_id matches Some(w) ==> row.worktree_id matches Some(v) && v@ == w
            }
        }),
{
    reveal_strlit(" AND op_id = ?");
    reveal_strlit(" AND repo_id = ?");
    reveal_strlit(" AND worktree_id = ?");
    reveal_strlit(" AND command_name = ?");
    reveal_strlit(" AND args_digest = ?");
    reveal_strlit(" AND end_ts >= ?");
    reveal_strlit(" AND status IN ('success', 'succeeded')");
    assert(" AND op_id = ?"@.len() == 14);
    assert(" AND repo_id = ?"@.len() == 16);
    assert(" AND worktree_id = ?"@.len() == 20 && " AND worktree_id = ?"@[5] == 'w');
    assert(" AND command_name = ?"@.len() == 21);
    assert(" AND args_digest = ?"@.len() == 20 && " AND args_digest = ?"@[5] == 'a');
    assert(" AND end_ts >= ?"@.len() == 16);
    assert(" AND status IN ('success', 'succeeded')"@.len() == 39);
    let cs = duplicate_clauses(worktree_id, command_name, args_digest, earliest_end_ts);
    assert(cs[0].values[0] == SqlModel::Text(Some(command_name)));
    assert(cs[1].values[0] == SqlModel::Text(Some(args_digest)));
    assert(cs[2].values.len() == 0);
    assert(cs[3].values[0] == SqlModel::BigInt(Some(earliest_end_ts)));
    assert(duplicate_holds(cs[0], row) <==> (row.command_name matches Some(c) && c@
        == command_name));
    assert(duplicate_holds(cs[1], row) <==> (row.args_digest matches Some(d) && d@
        == args_digest));
    assert(duplicate_holds(cs[3], row) <==> (row.end_ts matches Some(end) && end
        >= earliest_end_ts));
    if let Some(w) = worktree_id {
        assert(cs[4].values[0] == SqlModel::Text(Some(w)));
        assert(duplicate_holds(cs[4], row) <==> (row.worktree_id matches Some(v) && v@ == w));
    }
    if duplicate_holds(cs[0], row) && duplicate_holds(cs[1], row) && duplicate_holds(cs[2], row)
        && duplicate_holds(cs[3], row) && (worktree_id is Some ==> duplicate_holds(cs[4], row)) {
        assert forall|i: int| 0 <= i < cs.len() implies duplicate_holds(#[trigger] cs[i], row) by {
            if i == 0 || i == 1 || i == 2 || i == 3 {
            } else {
                assert(i == 4);
            }
        }
    }
}

} // verus!
