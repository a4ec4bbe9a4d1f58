//! What listing, showing, stopping and resuming captured sessions is for.

use vstd::prelude::*;

use crate::agent_session;
use crate::agent_session::{
    CaptureDiagnostic, MutationModel, PageKey, RowModel, SessionFailure, SessionMutationKind,
    SessionMutationOutput, SessionPage, SessionRow, SessionStateRow, StateModel,
};
use crate::order;
use crate::sql::{QueryModel, SqlModel, SqlQuery};
use crate::text;

verus! {

//// The order of sessions, and what statements ask for

/// Whether a session comes behind a place in the list: it started earlier, or
/// at the same time and its id is greater.
pub open spec fn comes_behind(started_at: i64, session_id: Seq<char>, row: RowModel) -> bool {
    ||| row.started_at < started_at
    ||| row.started_at == started_at && session_id != row.session_id && order::text_le(
        session_id,
        row.session_id,
    )
}

/// A condition of a statement, with the values of its placeholders.
pub struct Clause {
    pub condition: Seq<char>,
    pub values: Seq<SqlModel>,
}

/// What SQL says of a row with a condition.
pub open spec fn clause_holds(c: Clause, row: RowModel) -> bool {
    if c.condition == " AND agent_kind = ?"@ {
        c.values == seq![SqlModel::Text(Some(row.agent_kind))]
    } else if c.condition == " AND state = ?"@ {
        c.values == seq![SqlModel::Text(Some(row.state))]
    } else if c.condition == " AND (started_at < ? OR (started_at = ? AND session_id > ?))"@ {
        &&& c.values.len() == 3
        &&& c.values[0] matches SqlModel::BigInt(Some(before))
        &&& c.values[1] matches SqlModel::BigInt(Some(same))
        &&& c.values[2] matches SqlModel::Text(Some(id))
        &&& row.started_at < before || (row.started_at == same && id != row.session_id
            && order::text_le(id, row.session_id))
    } else {
        false
    }
}

/// The conditions behind one another.
pub open spec fn clauses_text(cs: Seq<Clause>) -> Seq<char>
    decreases cs.len(),
{
    if cs.len() == 0 {
        Seq::empty()
    } else {
        clauses_text(cs.drop_last()) + cs.last().condition
    }
}

/// Their values behind one another.
pub open spec fn clauses_values(cs: Seq<Clause>) -> Seq<SqlModel>
    decreases cs.len(),
{
    if cs.len() == 0 {
        Seq::empty()
    } else {
        clauses_values(cs.drop_last()) + cs.last().values
    }
}

pub open spec fn placed(n: i64, count: int) -> bool {
    n == count
}

/// Whether a statement asks for the sessions of which every condition holds,
/// newest first with ids ascending among equal times, and for `count` of them
/// at most.
pub open spec fn asks_newest_first(q: QueryModel, cs: Seq<Clause>, count: int) -> bool {
    &&& q.sql
        == "SELECT session_id, agent_kind, state, working_dir, started_at, last_event_at FROM agent_session WHERE 1=1"@
        + clauses_text(cs) + " ORDER BY started_at DESC, session_id ASC LIMIT ?"@
    &&& exists|n: i64|
        #[trigger] placed(n, count) && q.values == clauses_values(cs).push(SqlModel::BigInt(Some(n)))
}

/// Whether every condition holds of a row.
pub open spec fn all_hold(cs: Seq<Clause>, row: RowModel) -> bool {
    forall|i: int| 0 <= i < cs.len() ==> clause_holds(#[trigger] cs[i], row)
}

spec fn one(condition: Seq<char>, values: Seq<SqlModel>) -> Clause {
    Clause { condition, values }
}

spec fn request_clauses(
    agent_kind: Option<Seq<char>>,
    state: Option<Seq<char>>,
    cursor: Option<(i64, Seq<char>)>,
) -> Seq<Clause> {
    let a = match agent_kind {
        Some(k) => seq![one(" AND agent_kind = ?"@, seq![SqlModel::Text(Some(k))])],
        None => Seq::empty(),
    };
    let b = match state {
        Some(s) => a.push(one(" AND state = ?"@, seq![SqlModel::Text(Some(s))])),
        None => a,
    };
    match cursor {
        Some((at, id)) => b.push(
            one(
                " AND (started_at < ? OR (started_at = ? AND session_id > ?))"@,
                seq![
                    SqlModel::BigInt(Some(at)),
                    SqlModel::BigInt(Some(at)),
                    SqlModel::Text(Some(id)),
                ],
            ),
        ),
        None => b,
    }
}

pub proof fn lemma_clause_push(cs: Seq<Clause>, c: Clause)
    ensures
        clauses_text(cs.push(c)) == clauses_text(cs) + c.condition,
        clauses_values(cs.push(c)) == clauses_values(cs) + c.values,
{
    assert(cs.push(c).drop_last() =~= cs);
}

/// The statement of a page asks for the sessions of the agent and the state
/// that come behind the cursor, newest first: for one more than the page
/// holds.
pub proof fn law_page_asks_for_what_comes_behind(
    agent_kind: Option<Seq<char>>,
    state: Option<Seq<char>>,
    cursor: Option<(i64, Seq<char>)>,
    limit: u64,
)
    requires
        limit < i64::MAX,
    ensures
        exists|cs: Seq<Clause>| {
            &&& #[trigger] asks_newest_first(
                agent_session::page_request(agent_kind, state, cursor, limit),
                cs,
                limit + 1,
            )
            &&& forall|row: RowModel| #[trigger]
                all_hold(cs, row) <==> {
                    &&& agent_kind is None || agent_kind == Some(row.agent_kind)
                    &&& state is None || state == Some(row.state)
                    &&& cursor matches Some((at, id)) ==> comes_behind(at, id, row)
                }
        },
{
    reveal_strlit(" AND agent_kind = ?");
    reveal_strlit(" AND state = ?");
    reveal_strlit(" AND (started_at < ? OR (started_at = ? AND session_id > ?))");
    let q = agent_session::page_request(agent_kind, state, cursor, limit);
    let cs = request_clauses(agent_kind, state, cursor);
    let none = Seq::<Clause>::empty();
    let a = match agent_kind {
        Some(k) => seq![one(" AND agent_kind = ?"@, seq![SqlModel::Text(Some(k))])],
        None => none,
    };
    assert(clauses_text(none) =~= Seq::<char>::empty());
    assert(clauses_values(none) =~= Seq::<SqlModel>::empty());
    if let Some(k) = agent_kind {
        let c = one(" AND agent_kind = ?"@, seq![SqlModel::Text(Some(k))]);
        assert(a =~= none.push(c));
        lemma_clause_push(none, c);
    }
    let b = match state {
        Some(s) => a.push(one(" AND state = ?"@, seq![SqlModel::Text(Some(s))])),
        None => a,
    };
    if let Some(s) = state {
        lemma_clause_push(a, one(" AND state = ?"@, seq![SqlModel::Text(Some(s))]));
    }
    if let Some((at, id)) = cursor {
        lemma_clause_push(
            b,
            one(
                " AND (started_at < ? OR (started_at = ? AND session_id > ?))"@,
                seq![
                    SqlModel::BigInt(Some(at)),
                    SqlModel::BigInt(Some(at)),
                    SqlModel::Text(Some(id)),
                ],
            ),
        );
    }
    let n = (limit + 1) as i64;
    assert(q.values =~= clauses_values(cs).push(SqlModel::BigInt(Some(n))));
    assert(q.sql
        =~= "SELECT session_id, agent_kind, state, working_dir, started_at, last_event_at FROM agent_session WHERE 1=1"@
        + clauses_text(cs) + " ORDER BY started_at DESC, session_id ASC LIMIT ?"@);
    assert(placed(n, limit + 1));
    assert(asks_newest_first(q, cs, limit + 1));
    assert forall|row: RowModel| #[trigger] all_hold(cs, row) <==> {
        &&& agent_kind is None || agent_kind == Some(row.agent_kind)
        &&& state is None || state == Some(row.state)
        &&& cursor matches Some((at, id)) ==> comes_behind(at, id, row)
    } by {
        lemma_request_holds(agent_kind, state, cursor, row);
    }
}

proof fn lemma_request_holds(
    agent_kind: Option<Seq<char>>,
    state: Option<Seq<char>>,
    cursor: Option<(i64, Seq<char>)>,
    row: RowModel,
)
    ensures
        all_hold(request_clauses(agent_kind, state, cursor), row) <==> {
            &&& agent_kind is None || agent_kind == Some(row.agent_kind)
            &&& state is None || state == Some(row.state)
            &&& cursor matches Some((at, id)) ==> comes_behind(at, id, row)
        },
{
    reveal_strlit(" AND agent_kind = ?");
    reveal_strlit(" AND state = ?");
    reveal_strlit(" AND (started_at < ? OR (started_at = ? AND session_id > ?))");
    assert(" AND agent_kind = ?"@.len() == 19);
    assert(" AND state = ?"@.len() == 14);
    assert(" AND (started_at < ? OR (started_at = ? AND session_id > ?))"@.len() == 60);
    let cs = request_clauses(agent_kind, state, cursor);
    let i: int = 0;
    let j: int = if agent_kind is Some {
        1
    } else {
        0
    };
    let k: int = j + if state is Some {
        1int
    } else {
        0int
    };
    if let Some(x) = agent_kind {
        assert(cs[i] == one(" AND agent_kind = ?"@, seq![SqlModel::Text(Some(x))]));
        assert(clause_holds(cs[i], row) == (x == row.agent_kind)) by {
            let v = seq![SqlModel::Text(Some(x))];
            assert(v[0] == SqlModel::Text(Some(x)));
            assert(seq![SqlModel::Text(Some(row.agent_kind))][0] == SqlModel::Text(
                Some(row.agent_kind),
            ));
        }
    }
    if let Some(x) = state {
        assert(cs[j] == one(" AND state = ?"@, seq![SqlModel::Text(Some(x))]));
        assert(clause_holds(cs[j], row) == (x == row.state)) by {
            let v = seq![SqlModel::Text(Some(x))];
            assert(v[0] == SqlModel::Text(Some(x)));
            assert(seq![SqlModel::Text(Some(row.state))][0] == SqlModel::Text(Some(row.state)));
        }
    }
    if let Some((at, id)) = cursor {
        assert(clause_holds(cs[k], row) == comes_behind(at, id, row));
    }
}

/// Whether sessions stand newest first.
pub open spec fn newest_first(all: Seq<SessionRow>) -> bool {
    forall|i: int, j: int|
        0 <= i < j < all.len() ==> comes_behind(
            (#[trigger] all[i]).started_at,
            all[i].session_id@,
            (#[trigger] all[j])@,
        )
}

/// Pages one behind the other list every session once: a page shows the first
/// of the sessions that are left, and exactly the others come behind its
/// cursor.
pub proof fn law_pages_list_every_session_once(all: Seq<SessionRow>, limit: u64)
    requires
        newest_first(all),
        limit > 0,
    ensures
        ({
            let found = all.take(if all.len() > limit { limit + 1 } else { all.len() as int });
            match agent_session::page_end(found, limit) {
                None => agent_session::page_rows(found, limit) == all,
                Some((at, id)) => {
                    &&& all.len() > limit
                    &&& agent_session::page_rows(found, limit) == all.take(limit as int)
                    &&& forall|i: int|
                        0 <= i < all.len() ==> (comes_behind(at, id, (#[trigger] all[i])@) <==> i
                            >= limit)
                },
            }
        }),
{
    let found = all.take(if all.len() > limit { limit + 1 } else { all.len() as int });
    if all.len() > limit {
        let n = limit as int;
        assert(agent_session::page_rows(found, limit) =~= all.take(n));
        let last = all[n - 1];
        assert forall|i: int| 0 <= i < all.len() implies (comes_behind(
            last.started_at,
            last.session_id@,
            (#[trigger] all[i])@,
        ) <==> i >= limit) by {
            if i < n - 1 {
                assert(comes_behind(all[i].started_at, all[i].session_id@, all[n - 1]@));
                if comes_behind(last.started_at, last.session_id@, all[i]@)
                    && last.started_at == all[i].started_at {
                    order::lemma_text_le_antisymmetric(last.session_id@, all[i].session_id@);
                }
            } else if i >= n {
                assert(comes_behind(all[n - 1].started_at, all[n - 1].session_id@, all[i]@));
            }
        }
    } else {
        assert(found =~= all);
    }
}

/// What is asked of the database for a page is what [`law_page_asks_for_what_comes_behind`]
/// says, and the page that is made of what it finds shows the first of it.
pub proof fn law_listing_asks_and_shows(
    agent_kind: &Option<String>,
    state: &Option<String>,
    cursor: &Option<PageKey>,
    limit: u64,
    q: SqlQuery,
    rows: Vec<SessionRow>,
    page: SessionPage,
)
    requires
        limit < i64::MAX,
        call_ensures(agent_session::list_sessions, (agent_kind, state, cursor, limit), q),
        call_ensures(agent_session::session_page, (rows, limit), page),
    ensures
        exists|cs: Seq<Clause>| {
            &&& #[trigger] asks_newest_first(q@, cs, limit + 1)
            &&& forall|row: RowModel| #[trigger]
                all_hold(cs, row) <==> {
                    &&& agent_kind matches Some(k) ==> k@ == row.agent_kind
                    &&& state matches Some(s) ==> s@ == row.state
                    &&& cursor matches Some(k) ==> comes_behind(k.started_at, k.session_id@, row)
                }
        },
        page.sessions@ == if rows@.len() > limit {
            rows@.take(limit as int)
        } else {
            rows@
        },
        page.next matches Some(k) ==> rows@.len() > limit && k.started_at == rows@[limit
            - 1].started_at && k.session_id@ == rows@[limit - 1].session_id@,
        limit > 0 && rows@.len() > limit ==> page.next is Some,
{
    let a = text::opt_text(*agent_kind);
    let s = text::opt_text(*state);
    let c = agent_session::key_parts(*cursor);
    law_page_asks_for_what_comes_behind(a, s, c, limit);
    let cs = choose|cs: Seq<Clause>| {
        &&& #[trigger] asks_newest_first(
            agent_session::page_request(a, s, c, limit),
            cs,
            limit + 1,
        )
        &&& forall|row: RowModel| #[trigger]
            all_hold(cs, row) <==> {
                &&& a is None || a == Some(row.agent_kind)
                &&& s is None || s == Some(row.state)
                &&& c matches Some((at, id)) ==> comes_behind(at, id, row)
            }
    };
    assert(asks_newest_first(q@, cs, limit + 1));
}

//// Stopping and resuming

/// Whether a change finds a session in the state that it leads to.
pub open spec fn is_there(kind: SessionMutationKind, state: Seq<char>) -> bool {
    match kind {
        SessionMutationKind::Stop => state == "stopped"@,
        SessionMutationKind::Resume => state == "active"@,
    }
}

/// Whether a session may be changed from a worktree.
pub open spec fn is_open_to(row: StateModel, worktree: Seq<char>) -> bool {
    &&& row.scope_state != Some("legacy_unknown"@)
    &&& row.scope_state == Some("scoped"@) ==> match row.worktree_id {
        Some(w) => w == worktree,
        None => worktree.len() == 0,
    }
}

/// A session can be stopped from every state but quarantine, and resumed only
/// where it is stopped, from the worktree that it belongs to. Where it already
/// is what it shall be, nothing has to be allowed and nothing changes.
pub proof fn law_stop_and_resume(
    id: Seq<char>,
    kind: SessionMutationKind,
    row: StateModel,
    worktree: Seq<char>,
    now: i64,
)
    ensures
        agent_session::mutation(id, kind, row, worktree, now) is Ok <==> {
            &&& row.state != "quarantined"@
            &&& is_there(kind, row.state) || (is_open_to(row, worktree) && (kind is Stop
                || row.state == "stopped"@))
        },
        agent_session::mutation(id, kind, row, worktree, now) matches Ok(m) ==> {
            &&& m.session_id == id
            &&& m.previous_state == row.state
            &&& is_there(kind, m.state)
            &&& m.updated <==> !is_there(kind, row.state)
            &&& m.action == match kind {
                SessionMutationKind::Stop => "stop"@,
                SessionMutationKind::Resume => "resume"@,
            }
            &&& if m.updated {
                &&& m.last_event_at == now
                &&& m.stopped_at == match kind {
                    SessionMutationKind::Stop => Some(now),
                    SessionMutationKind::Resume => None::<i64>,
                }
            } else {
                m.last_event_at == row.last_event_at && m.stopped_at == row.stopped_at
            }
        },
{
    reveal_strlit("quarantined");
    reveal_strlit("stopped");
    reveal_strlit("active");
    assert("quarantined"@.len() == 11 && "stopped"@.len() == 7 && "active"@.len() == 6);
    assert(row.worktree_id is None ==> row.worktree().len() == 0);
    if worktree.len() == 0 {
        assert(worktree =~= Seq::<char>::empty());
    }
}

/// What changes a session says what becomes of it, and finds none where there
/// is no table or no row.
pub proof fn law_change_says_what_becomes(
    session_id: &str,
    kind: SessionMutationKind,
    has_table: bool,
    row: &Option<SessionStateRow>,
    worktree: &str,
    now: i64,
    r: Result<SessionMutationOutput, SessionFailure>,
)
    requires
        call_ensures(
            agent_session::mutate_session_state,
            (session_id, kind, has_table, row, worktree, now),
            r,
        ),
    ensures
        r is Ok ==> has_table && *row is Some,
        *row matches Some(x) ==> has_table ==> match r {
            Ok(m) => agent_session::mutation(session_id@, kind, x@, worktree@, now) == Ok::<
                MutationModel,
                Seq<char>,
            >(m@),
            Err(e) => agent_session::mutation(session_id@, kind, x@, worktree@, now) == Err::<
                MutationModel,
                Seq<char>,
            >(e@),
        },
{
}

/// The columns that a statement sets, each with a placeholder.
pub open spec fn assigned(names: Seq<Seq<char>>) -> Seq<char>
    decreases names.len(),
{
    if names.len() == 0 {
        Seq::empty()
    } else {
        assigned(names.drop_last()) + names.last() + " = ?, "@
    }
}

/// A change is written to the row of its session, each value to the column of
/// its name, and to no other column but the revision; nothing is written where
/// nothing changed.
pub proof fn law_change_is_written_to_its_columns(
    output: &SessionMutationOutput,
    r: Option<SqlQuery>,
)
    requires
        call_ensures(agent_session::session_update, (output,), r),
    ensures
        r is Some <==> output.updated,
        r matches Some(q) ==> {
            &&& q@.sql == "UPDATE agent_session SET "@ + assigned(
                seq!["state"@, "last_event_at"@, "stopped_at"@],
            ) + "sync_revision = sync_revision + 1 WHERE session_id = ?"@
            &&& q@.values == seq![
                SqlModel::Text(Some(output.state@)),
                SqlModel::BigInt(Some(output.last_event_at)),
                SqlModel::BigInt(output.stopped_at),
                SqlModel::Text(Some(output.session_id@)),
            ]
        },
{
    let names = seq!["state"@, "last_event_at"@, "stopped_at"@];
    reveal_with_fuel(assigned, 4);
    reveal_strlit("state");
    reveal_strlit("last_event_at");
    reveal_strlit("stopped_at");
    reveal_strlit(" = ?, ");
    reveal_strlit("UPDATE agent_session SET ");
    reveal_strlit("sync_revision = sync_revision + 1 WHERE session_id = ?");
    reveal_strlit(
        "UPDATE agent_session SET state = ?, last_event_at = ?, stopped_at = ?, sync_revision = sync_revision + 1 WHERE session_id = ?",
    );
    assert(names.drop_last() =~= seq!["state"@, "last_event_at"@]);
    assert(names.drop_last().drop_last() =~= seq!["state"@]);
    assert(names.drop_last().drop_last().drop_last() =~= Seq::<Seq<char>>::empty());
    assert(assigned(names) =~= "state"@ + " = ?, "@ + "last_event_at"@ + " = ?, "@ + "stopped_at"@
        + " = ?, "@);
    if let Some(q) = r {
        assert(q@.sql =~= "UPDATE agent_session SET "@ + assigned(names)
            + "sync_revision = sync_revision + 1 WHERE session_id = ?"@);
    }
}

/// A session is read by its id, and by nothing else.
pub proof fn law_session_is_read_by_its_id(session_id: &str, a: SqlQuery, b: SqlQuery)
    requires
        call_ensures(agent_session::session_state_query, (session_id,), a),
        call_ensures(agent_session::show_session_query, (session_id,), b),
    ensures
        a@.values == seq![SqlModel::Text(Some(session_id@))],
        b@.values == seq![SqlModel::Text(Some(session_id@))],
        a@.sql == "SELECT state, stopped_at, last_event_at, scope_state, worktree_id"@
            + " FROM agent_session WHERE session_id = ? LIMIT 1"@,
        b@.sql
            == "SELECT session_id, agent_kind, state, working_dir, started_at, last_event_at, COALESCE(metadata_json, '{}') AS metadata_json"@
            + " FROM agent_session WHERE session_id = ? LIMIT 1"@,
{
    reveal_strlit("SELECT state, stopped_at, last_event_at, scope_state, worktree_id");
    reveal_strlit(" FROM agent_session WHERE session_id = ? LIMIT 1");
    reveal_strlit(
        "SELECT state, stopped_at, last_event_at, scope_state, worktree_id FROM agent_session WHERE session_id = ? LIMIT 1",
    );
    reveal_strlit(
        "SELECT session_id, agent_kind, state, working_dir, started_at, last_event_at, COALESCE(metadata_json, '{}') AS metadata_json",
    );
    reveal_strlit(
        "SELECT session_id, agent_kind, state, working_dir, started_at, last_event_at, COALESCE(metadata_json, '{}') AS metadata_json FROM agent_session WHERE session_id = ? LIMIT 1",
    );
    assert(a@.sql =~= "SELECT state, stopped_at, last_event_at, scope_state, worktree_id"@
        + " FROM agent_session WHERE session_id = ? LIMIT 1"@);
    assert(b@.sql
        =~= "SELECT session_id, agent_kind, state, working_dir, started_at, last_event_at, COALESCE(metadata_json, '{}') AS metadata_json"@
        + " FROM agent_session WHERE session_id = ? LIMIT 1"@);
}

//// Showing

/// Whether a line names what it shows, and shows it behind a label of fixed
/// width.
pub open spec fn tells(line: Seq<char>, name: Seq<char>, value: Seq<char>) -> bool {
    &&& name.is_prefix_of(line)
    &&& line.len() == 16 + value.len()
    &&& line[14] == ':' && line[15] == ' '
    &&& line.skip(16) == value
}

proof fn lemma_tells(label: Seq<char>, name: Seq<char>, value: Seq<char>)
    requires
        label.len() == 16,
        name.is_prefix_of(label),
        label[14] == ':',
        label[15] == ' ',
    ensures
        tells(label + value, name, value),
{
    assert((label + value).skip(16) =~= value);
    assert((label + value).subrange(0, name.len() as int) =~= label.subrange(0, name.len() as int));
}

/// A session is shown with all that is known of it, each thing by its name; of
/// a failed capture there is something only where there was one.
pub proof fn law_session_is_shown_whole(m: RowModel)
    ensures
        agent_session::shown(m).len() >= 6,
        tells(agent_session::shown(m)[0], "session_id"@, m.session_id),
        tells(agent_session::shown(m)[1], "agent_kind"@, m.agent_kind),
        tells(agent_session::shown(m)[2], "state"@, m.state),
        tells(agent_session::shown(m)[3], "working_dir"@, m.working_dir),
        tells(
            agent_session::shown(m)[4],
            "started_at"@,
            text::signed_decimal(m.started_at as int),
        ),
        tells(
            agent_session::shown(m)[5],
            "last_event_at"@,
            text::signed_decimal(m.last_event_at as int),
        ),
        m.capture_status is None <==> agent_session::shown(m).len() == 6,
        m.capture_status matches Some(status) ==> tells(
            agent_session::shown(m)[6],
            "capture_status"@,
            status,
        ),
        m.capture_status is Some && m.capture_error_code is Some ==> tells(
            agent_session::shown(m)[7],
            "capture_error"@,
            m.capture_error_code->0,
        ),
{
    let s = agent_session::shown(m);
    reveal_strlit("session_id    : ");
    reveal_strlit("agent_kind    : ");
    reveal_strlit("state         : ");
    reveal_strlit("working_dir   : ");
    reveal_strlit("started_at    : ");
    reveal_strlit("last_event_at : ");
    reveal_strlit("capture_status: ");
    reveal_strlit("capture_error : ");
    reveal_strlit("session_id");
    reveal_strlit("agent_kind");
    reveal_strlit("state");
    reveal_strlit("working_dir");
    reveal_strlit("started_at");
    reveal_strlit("last_event_at");
    reveal_strlit("capture_status");
    reveal_strlit("capture_error");
    assert("session_id    : "@.subrange(0, 10) =~= "session_id"@);
    assert("agent_kind    : "@.subrange(0, 10) =~= "agent_kind"@);
    assert("state         : "@.subrange(0, 5) =~= "state"@);
    assert("working_dir   : "@.subrange(0, 11) =~= "working_dir"@);
    assert("started_at    : "@.subrange(0, 10) =~= "started_at"@);
    assert("last_event_at : "@.subrange(0, 13) =~= "last_event_at"@);
    assert("capture_status: "@.subrange(0, 14) =~= "capture_status"@);
    assert("capture_error : "@.subrange(0, 13) =~= "capture_error"@);
    lemma_tells("session_id    : "@, "session_id"@, m.session_id);
    lemma_tells("agent_kind    : "@, "agent_kind"@, m.agent_kind);
    lemma_tells("state         : "@, "state"@, m.state);
    lemma_tells("working_dir   : "@, "working_dir"@, m.working_dir);
    lemma_tells(
        "started_at    : "@,
        "started_at"@,
        text::signed_decimal(m.started_at as int),
    );
    lemma_tells(
        "last_event_at : "@,
        "last_event_at"@,
        text::signed_decimal(m.last_event_at as int),
    );
    if let Some(status) = m.capture_status {
        lemma_tells("capture_status: "@, "capture_status"@, status);
        if let Some(code) = m.capture_error_code {
            lemma_tells("capture_error : "@, "capture_error"@, code);
        }
    }
}

/// What a capture left of its failures is read of the metadata, each thing
/// under its own key, and where the transcript is too.
pub proof fn law_metadata_is_read_by_its_keys(
    metadata_json: &str,
    d: CaptureDiagnostic,
    p: Result<String, SessionFailure>,
)
    requires
        call_ensures(agent_session::capture_diagnostic_from_metadata, (metadata_json,), d),
        call_ensures(agent_session::transcript_from_metadata, (metadata_json,), p),
    ensures
        d.status matches Some(s) ==> agent_session::json_text(metadata_json@, "capture_status"@)
            == Ok::<Option<Seq<char>>, Seq<char>>(Some(s@)),
        d.error_code matches Some(s) ==> agent_session::json_text(
            metadata_json@,
            "capture_error_code"@,
        ) == Ok::<Option<Seq<char>>, Seq<char>>(Some(s@)),
        d.error_stage matches Some(s) ==> agent_session::json_text(
            metadata_json@,
            "capture_error_stage"@,
        ) == Ok::<Option<Seq<char>>, Seq<char>>(Some(s@)),
        d.failed_at matches Some(n) ==> agent_session::json_integer(
            metadata_json@,
            "capture_failed_at"@,
        ) == Ok::<Option<i64>, Seq<char>>(Some(n)),
        p matches Ok(path) ==> agent_session::json_text(metadata_json@, "transcript_path"@) == Ok::<
            Option<Seq<char>>,
            Seq<char>,
        >(Some(path@)) && exists|i: int|
            0 <= i < path@.len() && !text::is_white(#[trigger] path@[i]),
        p is Err ==> !(agent_session::json_text(metadata_json@, "transcript_path"@) matches Ok(
            Some(path),
        ) && !text::is_blank(path)),
{
    if let Ok(path) = p {
        assert(!text::is_blank(path@));
    }
}

} // verus!
