//! Captured agent sessions: listing, showing, stopping and resuming them.
//!
//! Rows are read and written by the caller; what is asked of the database,
//! what becomes of a session and what is printed are decided here.

use vstd::prelude::*;
use vstd::string::*;

use crate::operation::store::joined;
use crate::order;
use crate::sql;
use crate::sql::{QueryModel, SqlModel, SqlQuery};
use crate::text;
use crate::text::{blank, decimal_text, same, signed_decimal_text};
use crate::tool::ToolCallRecord;

verus! {

//// Commands

/// What may be asked of captured sessions.
#[derive(Debug)]
pub enum SessionSubcommand {
    /// List captured sessions.
    List(SessionListArgs),
    /// Show a captured session.
    Show(SessionShowArgs),
    /// Stop a captured session.
    Stop(SessionStopArgs),
    /// Resume a stopped session.
    Resume(SessionResumeArgs),
    /// Derive tool calls from a captured session.
    DeriveToolCalls(SessionDeriveToolCallsArgs),
}

#[derive(Debug)]
pub struct SessionListArgs {
    /// Filter by agent kind.
    pub agent: Option<String>,
    /// Filter by state.
    pub state: Option<String>,
    /// Maximum rows to return.
    pub limit: Option<u64>,
    /// Cursor from the previous page.
    pub cursor: Option<String>,
}

#[derive(Debug)]
pub struct SessionShowArgs {
    pub session_id: String,
    /// Copies the captured transcript to this path.
    pub extract_transcript: Option<String>,
}

#[derive(Debug)]
pub struct SessionStopArgs {
    pub session_id: String,
}

#[derive(Debug)]
pub struct SessionResumeArgs {
    pub session_id: String,
}

#[derive(Debug)]
pub struct SessionDeriveToolCallsArgs {
    pub session_id: String,
}

/// Why a request on a session fails.
#[derive(Debug, PartialEq, Eq)]
pub struct SessionFailure {
    pub message: String,
}

impl View for SessionFailure {
    type V = Seq<char>;

    open spec fn view(&self) -> Seq<char> {
        self.message@
    }
}

/// The sentence for a store without sessions.
pub open spec fn no_table_message(session_id: Seq<char>) -> Seq<char> {
    "no captured session matches '"@ + session_id
        + "': agent_session table not yet present (run `libra init`?)"@
}

/// The sentence for a session that is not there.
pub open spec fn no_session_message(session_id: Seq<char>) -> Seq<char> {
    "no captured session matches id '"@ + session_id + "'"@
}

fn no_table(session_id: &str) -> (r: SessionFailure)
    ensures
        r@ == no_table_message(session_id@),
{
    let mut message = joined("no captured session matches '", session_id);
    message.append("': agent_session table not yet present (run `libra init`?)");
    SessionFailure { message }
}

fn no_session(session_id: &str) -> (r: SessionFailure)
    ensures
        r@ == no_session_message(session_id@),
{
    let mut message = joined("no captured session matches id '", session_id);
    message.append("'");
    SessionFailure { message }
}

//// Rows

/// A session as it is listed and shown.
#[derive(Debug, PartialEq, Eq)]
pub struct SessionRow {
    pub session_id: String,
    pub agent_kind: String,
    pub state: String,
    pub working_dir: String,
    pub started_at: i64,
    pub last_event_at: i64,
    pub capture_status: Option<String>,
    pub capture_error_code: Option<String>,
    pub capture_error_stage: Option<String>,
    pub capture_failed_at: Option<i64>,
}

/// What a [`SessionRow`] says.
#[verifier::ext_equal]
pub struct RowModel {
    pub session_id: Seq<char>,
    pub agent_kind: Seq<char>,
    pub state: Seq<char>,
    pub working_dir: Seq<char>,
    pub started_at: i64,
    pub last_event_at: i64,
    pub capture_status: Option<Seq<char>>,
    pub capture_error_code: Option<Seq<char>>,
    pub capture_error_stage: Option<Seq<char>>,
    pub capture_failed_at: Option<i64>,
}

impl View for SessionRow {
    type V = RowModel;

    open spec fn view(&self) -> RowModel {
        RowModel {
            session_id: self.session_id@,
            agent_kind: self.agent_kind@,
            state: self.state@,
            working_dir: self.working_dir@,
            started_at: self.started_at,
            last_event_at: self.last_event_at,
            capture_status: text::opt_text(self.capture_status),
            capture_error_code: text::opt_text(self.capture_error_code),
            capture_error_stage: text::opt_text(self.capture_error_stage),
            capture_failed_at: self.capture_failed_at,
        }
    }
}

//// Metadata

/// The text that JSON holds under a key of its outermost object: `Ok(None)`
/// where there is none, the parser's complaint where it is not JSON.
pub uninterp spec fn json_text(json: Seq<char>, key: Seq<char>) -> Result<
    Option<Seq<char>>,
    Seq<char>,
>;

/// The integer that JSON holds under a key of its outermost object: `Ok(None)`
/// where there is none that fits, the parser's complaint where it is not JSON.
pub uninterp spec fn json_integer(json: Seq<char>, key: Seq<char>) -> Result<
    Option<i64>,
    Seq<char>,
>;

/// What a lookup of a text says.
pub open spec fn lookup(r: Result<Option<String>, String>) -> Result<Option<Seq<char>>, Seq<char>> {
    match r {
        Ok(o) => Ok(text::opt_text(o)),
        Err(e) => Err(e@),
    }
}

/// `serde_json::from_str` to a `serde_json::Value`, then `Value::get` and
/// `Value::as_str`. What they find is a function of the text and the key
/// alone, and goes by the name [`json_text`].
#[verifier::external_body]
fn read_json_text(json: &str, key: &str) -> (r: Result<Option<String>, String>)
    ensures
        lookup(r) == json_text(json@, key@),
{
    match serde_json::from_str::<serde_json::Value>(json) {
        Ok(value) => Ok(value.get(key).and_then(|v| v.as_str()).map(|s| s.to_owned())),
        Err(error) => Err(error.to_string()),
    }
}

/// `serde_json::from_str` to a `serde_json::Value`, then `Value::get` and
/// `Value::as_i64`. What they find is a function of the text and the key
/// alone, and goes by the name [`json_integer`].
#[verifier::external_body]
fn read_json_integer(json: &str, key: &str) -> (r: Result<Option<i64>, String>)
    ensures
        (match r {
            Ok(o) => json_integer(json@, key@) == Ok::<Option<i64>, Seq<char>>(o),
            Err(e) => json_integer(json@, key@) == Err::<Option<i64>, Seq<char>>(e@),
        }),
{
    match serde_json::from_str::<serde_json::Value>(json) {
        Ok(value) => Ok(value.get(key).and_then(|v| v.as_i64())),
        Err(error) => Err(error.to_string()),
    }
}

/// What a capture left of its failures.
#[derive(Debug, PartialEq, Eq)]
pub struct CaptureDiagnostic {
    pub status: Option<String>,
    pub error_code: Option<String>,
    pub error_stage: Option<String>,
    pub failed_at: Option<i64>,
}

/// What was found, or nothing.
pub open spec fn found<T>(r: Result<Option<T>, Seq<char>>) -> Option<T> {
    match r {
        Ok(o) => o,
        Err(_) => None,
    }
}

/// What was found, or nothing.
pub fn found_or_none<T>(r: Result<Option<T>, String>) -> (o: Option<T>)
    ensures
        o == match r {
            Ok(x) => x,
            Err(_) => None,
        },
{
    match r {
        Ok(o) => o,
        Err(_) => None,
    }
}

/// The diagnostic that a session's metadata holds; metadata that is not JSON
/// holds none.
pub fn capture_diagnostic_from_metadata(metadata_json: &str) -> (r: CaptureDiagnostic)
    ensures
        text::opt_text(r.status) == found(json_text(metadata_json@, "capture_status"@)),
        text::opt_text(r.error_code) == found(json_text(metadata_json@, "capture_error_code"@)),
        text::opt_text(r.error_stage) == found(json_text(metadata_json@, "capture_error_stage"@)),
        r.failed_at == found(json_integer(metadata_json@, "capture_failed_at"@)),
{
    CaptureDiagnostic {
        status: found_or_none(read_json_text(metadata_json, "capture_status")),
        error_code: found_or_none(read_json_text(metadata_json, "capture_error_code")),
        error_stage: found_or_none(read_json_text(metadata_json, "capture_error_stage")),
        failed_at: found_or_none(read_json_integer(metadata_json, "capture_failed_at")),
    }
}

/// Where a transcript is, for what was found of it in the metadata: a path
/// that is not blank, or why there is none.
pub open spec fn transcript_path(found: Result<Option<Seq<char>>, Seq<char>>) -> Result<
    Seq<char>,
    Seq<char>,
> {
    match found {
        Err(e) => Err(
            "captured session metadata_json is not valid JSON; cannot extract transcript: "@ + e,
        ),
        Ok(Some(path)) => if text::is_blank(path) {
            Err(
                "captured session metadata_json does not contain transcript_path; cannot extract transcript"@,
            )
        } else {
            Ok(path)
        },
        Ok(None) => Err(
            "captured session metadata_json does not contain transcript_path; cannot extract transcript"@,
        ),
    }
}

/// Where a transcript is, for what was found of it in the metadata.
pub fn transcript_source(found: Result<Option<String>, String>) -> (r: Result<
    String,
    SessionFailure,
>)
    ensures
        (match r {
            Ok(path) => transcript_path(lookup(found)) == Ok::<Seq<char>, Seq<char>>(path@),
            Err(e) => transcript_path(lookup(found)) == Err::<Seq<char>, Seq<char>>(e@),
        }),
{
    match found {
        Err(e) => Err(
            SessionFailure {
                message: joined(
                    "captured session metadata_json is not valid JSON; cannot extract transcript: ",
                    e.as_str(),
                ),
            },
        ),
        Ok(o) => {
            if let Some(path) = o {
                if !blank(path.as_str()) {
                    return Ok(path);
                }
            }
            Err(
                SessionFailure {
                    message:
                        "captured session metadata_json does not contain transcript_path; cannot extract transcript".to_owned(),
                },
            )
        },
    }
}

/// Where the transcript of a session is, by its metadata.
pub fn transcript_from_metadata(metadata_json: &str) -> (r: Result<String, SessionFailure>)
    ensures
        (match r {
            Ok(path) => transcript_path(json_text(metadata_json@, "transcript_path"@)) == Ok::<
                Seq<char>,
                Seq<char>,
            >(path@),
            Err(e) => transcript_path(json_text(metadata_json@, "transcript_path"@)) == Err::<
                Seq<char>,
                Seq<char>,
            >(e@),
        }),
{
    transcript_source(read_json_text(metadata_json, "transcript_path"))
}

//// Listing

/// The statement of a page: filters and cursor, newest first.
pub open spec fn page_sql(with_agent: bool, with_state: bool, with_cursor: bool) -> Seq<char> {
    "SELECT session_id, agent_kind, state, working_dir, started_at, last_event_at FROM agent_session WHERE 1=1"@
        + (if with_agent {
        " AND agent_kind = ?"@
    } else {
        Seq::empty()
    }) + (if with_state {
        " AND state = ?"@
    } else {
        Seq::empty()
    }) + (if with_cursor {
        " AND (started_at < ? OR (started_at = ? AND session_id > ?))"@
    } else {
        Seq::empty()
    }) + " ORDER BY started_at DESC, session_id ASC LIMIT ?"@
}

/// The statement of a page. Its placeholders are the agent kind, the state,
/// the cursor's time twice and id, as far as they are there, and the limit.
pub fn session_page_sql(with_agent: bool, with_state: bool, with_cursor: bool) -> (r: String)
    ensures
        r@ == page_sql(with_agent, with_state, with_cursor),
{
    let mut sql =
        "SELECT session_id, agent_kind, state, working_dir, started_at, last_event_at FROM agent_session WHERE 1=1".to_owned();
    if with_agent {
        sql.append(" AND agent_kind = ?");
    }
    if with_state {
        sql.append(" AND state = ?");
    }
    if with_cursor {
        sql.append(" AND (started_at < ? OR (started_at = ? AND session_id > ?))");
    }
    sql.append(" ORDER BY started_at DESC, session_id ASC LIMIT ?");
    assert(sql@ =~= page_sql(with_agent, with_state, with_cursor));
    sql
}

/// A place in the list of sessions.
#[derive(Debug, PartialEq, Eq)]
pub struct PageKey {
    pub started_at: i64,
    pub session_id: String,
}

/// What a [`PageKey`] says.
pub open spec fn key_parts(k: Option<PageKey>) -> Option<(i64, Seq<char>)> {
    match k {
        Some(k) => Some((k.started_at, k.session_id@)),
        None => None,
    }
}

/// The values of a text that may be missing: one or none.
pub open spec fn opt_values(o: Option<Seq<char>>) -> Seq<SqlModel> {
    match o {
        Some(s) => seq![sql::text(s)],
        None => Seq::empty(),
    }
}

/// The values of a cursor.
pub open spec fn cursor_values(k: Option<(i64, Seq<char>)>) -> Seq<SqlModel> {
    match k {
        Some((at, id)) => seq![sql::number(at), sql::number(at), sql::text(id)],
        None => Seq::empty(),
    }
}

/// The request for a page: one row more than it holds is asked for, which
/// tells whether there is a page behind it.
pub open spec fn page_request(
    agent_kind: Option<Seq<char>>,
    state: Option<Seq<char>>,
    cursor: Option<(i64, Seq<char>)>,
    limit: u64,
) -> QueryModel {
    QueryModel {
        sql: page_sql(agent_kind is Some, state is Some, cursor is Some),
        values: (opt_values(agent_kind) + opt_values(state) + cursor_values(cursor)).push(
            sql::number((limit + 1) as i64),
        ),
    }
}

pub fn list_sessions(
    agent_kind: &Option<String>,
    state: &Option<String>,
    cursor: &Option<PageKey>,
    limit: u64,
) -> (r: SqlQuery)
    requires
        limit < i64::MAX,
    ensures
        r@ == page_request(
            text::opt_text(*agent_kind),
            text::opt_text(*state),
            key_parts(*cursor),
            limit,
        ),
{
    let sql = session_page_sql(agent_kind.is_some(), state.is_some(), cursor.is_some());
    let mut q = SqlQuery::new(sql.as_str());
    if let Some(agent) = agent_kind {
        q.push_text(agent.as_str());
    }
    if let Some(s) = state {
        q.push_text(s.as_str());
    }
    if let Some(k) = cursor {
        q.push_number(k.started_at);
        q.push_number(k.started_at);
        q.push_text(k.session_id.as_str());
    }
    q.push_number(limit as i64 + 1);
    assert(q@ =~= page_request(
        text::opt_text(*agent_kind),
        text::opt_text(*state),
        key_parts(*cursor),
        limit,
    ));
    q
}

/// The rows of a page, and where the next page starts if there is one.
#[derive(Debug, PartialEq, Eq)]
pub struct SessionPage {
    pub sessions: Vec<SessionRow>,
    pub next: Option<PageKey>,
}

/// The rows that a page shows of those found for it.
pub open spec fn page_rows(rows: Seq<SessionRow>, limit: u64) -> Seq<SessionRow> {
    if rows.len() > limit {
        rows.take(limit as int)
    } else {
        rows
    }
}

/// Where the page behind starts: at the last row shown, where there is more.
pub open spec fn page_end(rows: Seq<SessionRow>, limit: u64) -> Option<(i64, Seq<char>)> {
    if rows.len() > limit && limit > 0 {
        Some((rows[limit - 1].started_at, rows[limit - 1].session_id@))
    } else {
        None
    }
}

/// The page that the rows make which its request found.
pub fn session_page(rows: Vec<SessionRow>, limit: u64) -> (r: SessionPage)
    ensures
        r.sessions@ == page_rows(rows@, limit),
        key_parts(r.next) == page_end(rows@, limit),
{
    let n = rows.len();
    let mut sessions = rows;
    let mut next: Option<PageKey> = None;
    if n as u64 > limit {
        if limit > 0 {
            let last = &sessions[limit as usize - 1];
            next =
            Some(PageKey { started_at: last.started_at, session_id: last.session_id.clone() });
        }
        sessions.truncate(limit as usize);
    }
    SessionPage { sessions, next }
}

/// A page holds no more than its limit, ends at the row that its cursor names,
/// and leaves rows out only where it has a cursor.
pub proof fn law_page_ends_at_its_cursor(rows: Seq<SessionRow>, limit: u64)
    requires
        limit > 0,
    ensures
        page_rows(rows, limit).len() <= limit,
        page_end(rows, limit) is Some ==> page_rows(rows, limit).len() == limit && page_end(
            rows,
            limit,
        ) == Some(
            (
                page_rows(rows, limit).last().started_at,
                page_rows(rows, limit).last().session_id@,
            ),
        ),
        page_end(rows, limit) is None ==> page_rows(rows, limit) == rows,
{
}

//// Printing

/// `s`, filled with spaces to `width` characters.
pub open spec fn padded(s: Seq<char>, width: nat) -> Seq<char> {
    if s.len() >= width {
        s
    } else {
        s + Seq::new((width - s.len()) as nat, |i: int| ' ')
    }
}

fn push_padded(out: &mut String, s: &str, width: usize)
    ensures
        final(out)@ == old(out)@ + padded(s@, width as nat),
{
    let ghost start = out@;
    out.append(s);
    let mut n: usize = s.unicode_len();
    let ghost first = n as int;
    while n < width
        invariant
            first == s@.len(),
            first <= n,
            n <= width || n == first,
            out@ == start + s@ + Seq::new((n - first) as nat, |i: int| ' '),
        decreases width - n,
    {
        out.push(' ');
        n += 1;
        assert(out@ =~= start + s@ + Seq::new((n - first) as nat, |i: int| ' '));
    }
    assert(out@ =~= start + padded(s@, width as nat));
}

/// The width of a column: that of its longest text in bytes, or `least`.
pub open spec fn widest(s: Seq<Seq<char>>, least: nat) -> nat
    decreases s.len(),
{
    if s.len() == 0 {
        least
    } else {
        let w = widest(s.drop_last(), least);
        let n = vstd::utf8::encode_utf8(s.last()).len();
        if n > w {
            n
        } else {
            w
        }
    }
}

fn byte_len(s: &str) -> (r: usize)
    ensures
        r == vstd::utf8::encode_utf8(s@).len(),
{
    s.as_bytes().len()
}

/// Which text of a session a column shows.
#[derive(Debug, Clone, Copy, PartialEq, Eq, Structural)]
pub enum Column {
    SessionId,
    AgentKind,
    State,
}

/// The text of a column.
pub open spec fn cell(m: RowModel, c: Column) -> Seq<char> {
    match c {
        Column::SessionId => m.session_id,
        Column::AgentKind => m.agent_kind,
        Column::State => m.state,
    }
}

/// The texts of a column.
pub open spec fn cells(s: Seq<RowModel>, c: Column) -> Seq<Seq<char>> {
    s.map_values(|m: RowModel| cell(m, c))
}

fn column_width(rows: &[SessionRow], column: Column, least: usize) -> (r: usize)
    ensures
        r == widest(cells(order::views(rows@), column), least as nat),
{
    let ghost all = cells(order::views(rows@), column);
    let mut width = least;
    let mut i: usize = 0;
    assert(all.take(0) =~= Seq::<Seq<char>>::empty());
    while i < rows.len()
        invariant
            i <= rows@.len(),
            all == cells(order::views(rows@), column),
            width == widest(all.take(i as int), least as nat),
        decreases rows@.len() - i,
    {
        assert(all.take(i + 1).drop_last() =~= all.take(i as int));
        let n = match column {
            Column::SessionId => byte_len(rows[i].session_id.as_str()),
            Column::AgentKind => byte_len(rows[i].agent_kind.as_str()),
            Column::State => byte_len(rows[i].state.as_str()),
        };
        if n > width {
            width = n;
        }
        i += 1;
    }
    assert(all.take(i as int) =~= all);
    width
}

fn text_width(texts: &[String], least: usize) -> (r: usize)
    ensures
        r == widest(text::texts(texts@), least as nat),
{
    let ghost all = text::texts(texts@);
    let mut width = least;
    let mut i: usize = 0;
    assert(all.take(0) =~= Seq::<Seq<char>>::empty());
    while i < texts.len()
        invariant
            i <= texts@.len(),
            all == text::texts(texts@),
            width == widest(all.take(i as int), least as nat),
        decreases texts@.len() - i,
    {
        assert(all.take(i + 1).drop_last() =~= all.take(i as int));
        let n = byte_len(texts[i].as_str());
        if n > width {
            width = n;
        }
        i += 1;
    }
    assert(all.take(i as int) =~= all);
    width
}

/// The widths of a table's columns.
pub struct Widths {
    pub session_id: nat,
    pub agent_kind: nat,
    pub state: nat,
    pub started_at: nat,
}

/// The widths for rows and the times they show.
pub open spec fn widths(s: Seq<RowModel>, started: Seq<Seq<char>>) -> Widths {
    Widths {
        session_id: widest(cells(s, Column::SessionId), 37),
        agent_kind: widest(cells(s, Column::AgentKind), 14),
        state: widest(cells(s, Column::State), 10),
        started_at: widest(started, 20),
    }
}

/// A line of the table.
pub open spec fn table_line(
    w: Widths,
    session_id: Seq<char>,
    agent_kind: Seq<char>,
    state: Seq<char>,
    started_at: Seq<char>,
) -> Seq<char> {
    padded(session_id, w.session_id) + "  "@ + padded(agent_kind, w.agent_kind) + "  "@ + padded(
        state,
        w.state,
    ) + "  "@ + padded(started_at, w.started_at)
}

/// The line of a session.
pub open spec fn session_line(w: Widths, m: RowModel, started_at: Seq<char>) -> Seq<char> {
    table_line(w, m.session_id, m.agent_kind, m.state, started_at)
}

/// The lines of a page: a header, the sessions, and where to go on.
pub open spec fn page_lines(
    s: Seq<RowModel>,
    started: Seq<Seq<char>>,
    next_cursor: Option<Seq<char>>,
) -> Seq<Seq<char>> {
    let w = widths(s, started);
    let header = table_line(w, "session_id"@, "agent_kind"@, "state"@, "started_at"@);
    let body = seq![header] + Seq::new(s.len(), |i: int| session_line(w, s[i], started[i]));
    match next_cursor {
        Some(c) => body.push(
            "(more rows available — next page: --cursor "@ + c + ")"@,
        ),
        None => body,
    }
}

fn line_of(
    widths: (usize, usize, usize, usize),
    session_id: &str,
    agent_kind: &str,
    state: &str,
    started_at: &str,
) -> (r: String)
    ensures
        r@ == table_line(
            Widths {
                session_id: widths.0 as nat,
                agent_kind: widths.1 as nat,
                state: widths.2 as nat,
                started_at: widths.3 as nat,
            },
            session_id@,
            agent_kind@,
            state@,
            started_at@,
        ),
{
    let mut out = String::new();
    push_padded(&mut out, session_id, widths.0);
    out.append("  ");
    push_padded(&mut out, agent_kind, widths.1);
    out.append("  ");
    push_padded(&mut out, state, widths.2);
    out.append("  ");
    push_padded(&mut out, started_at, widths.3);
    assert(Seq::<char>::empty() + padded(session_id@, widths.0 as nat) =~= padded(
        session_id@,
        widths.0 as nat,
    ));
    out
}

pub fn session_list_column_widths(rows: &[SessionRow], started_at_values: &[String]) -> (r: (
    usize,
    usize,
    usize,
    usize,
))
    ensures
        ({
            let w = widths(order::views(rows@), text::texts(started_at_values@));
            r.0 == w.session_id && r.1 == w.agent_kind && r.2 == w.state && r.3 == w.started_at
        }),
{
    (
        column_width(rows, Column::SessionId, 37),
        column_width(rows, Column::AgentKind, 14),
        column_width(rows, Column::State, 10),
        text_width(started_at_values, 20),
    )
}

/// The lines of a page of sessions. `started_at_values` are the times at which
/// the sessions started, as they are shown.
pub fn format_session_list_human(
    sessions: &[SessionRow],
    started_at_values: &[String],
    next_cursor: &Option<String>,
) -> (r: Vec<String>)
    requires
        sessions@.len() == started_at_values@.len(),
    ensures
        text::texts(r@) == page_lines(
            order::views(sessions@),
            text::texts(started_at_values@),
            text::opt_text(*next_cursor),
        ),
{
    let ghost s = order::views(sessions@);
    let ghost started = text::texts(started_at_values@);
    let ghost w = widths(s, started);
    let ghost body = Seq::new(s.len(), |i: int| session_line(w, s[i], started[i]));
    let found = session_list_column_widths(sessions, started_at_values);
    let mut lines: Vec<String> = Vec::new();
    let header = line_of(found, "session_id", "agent_kind", "state", "started_at");
    let ghost head = seq![header@];
    lines.push(header);
    assert(text::texts(lines@) =~= head + body.take(0));
    let mut i: usize = 0;
    while i < sessions.len()
        invariant
            i <= sessions@.len(),
            sessions@.len() == started_at_values@.len(),
            s == order::views(sessions@),
            started == text::texts(started_at_values@),
            w == widths(s, started),
            body == Seq::new(s.len(), |i: int| session_line(w, s[i], started[i])),
            found.0 == w.session_id && found.1 == w.agent_kind && found.2 == w.state && found.3
                == w.started_at,
            text::texts(lines@) == head + body.take(i as int),
        decreases sessions@.len() - i,
    {
        let row = &sessions[i];
        let line = line_of(
            found,
            row.session_id.as_str(),
            row.agent_kind.as_str(),
            row.state.as_str(),
            started_at_values[i].as_str(),
        );
        let ghost before = text::texts(lines@);
        let ghost m = line@;
        assert(m == body[i as int]);
        lines.push(line);
        assert(text::texts(lines@) =~= before.push(m));
        assert(before.push(m) =~= head + body.take(i + 1));
        i += 1;
    }
    assert(body.take(i as int) =~= body);
    if let Some(cursor) = next_cursor {
        let ghost before = text::texts(lines@);
        let mut more = joined("(more rows available — next page: --cursor ", cursor.as_str());
        more.append(")");
        let ghost m = more@;
        lines.push(more);
        assert(text::texts(lines@) =~= before.push(m));
    }
    lines
}

proof fn lemma_bytes_cover_chars(s: Seq<char>)
    ensures
        vstd::utf8::encode_utf8(s).len() >= s.len(),
    decreases s.len(),
{
    if s.len() > 0 {
        lemma_bytes_cover_chars(s.drop_first());
        assert(vstd::utf8::encode_scalar(s[0] as u32).len() >= 1);
    }
}

proof fn lemma_widest_covers(s: Seq<Seq<char>>, least: nat, i: int)
    ensures
        widest(s, least) >= least,
        0 <= i < s.len() ==> widest(s, least) >= s[i].len(),
    decreases s.len(),
{
    if s.len() > 0 {
        lemma_widest_covers(s.drop_last(), least, i);
        lemma_bytes_cover_chars(s.last());
    }
}

/// Whether a line shows its texts in columns that start where the widths say.
pub open spec fn is_aligned(
    line: Seq<char>,
    w: Widths,
    agent_kind: Seq<char>,
    state: Seq<char>,
    started_at: Seq<char>,
) -> bool {
    let a = w.session_id + 2;
    let b = a + w.agent_kind + 2;
    let c = b + w.state + 2;
    &&& line.len() == c + w.started_at
    &&& line.subrange(a as int, (a + agent_kind.len()) as int) == agent_kind
    &&& line.subrange(b as int, (b + state.len()) as int) == state
    &&& line.subrange(c as int, (c + started_at.len()) as int) == started_at
}

proof fn lemma_line_aligned(
    w: Widths,
    session_id: Seq<char>,
    agent_kind: Seq<char>,
    state: Seq<char>,
    started_at: Seq<char>,
)
    requires
        session_id.len() <= w.session_id,
        agent_kind.len() <= w.agent_kind,
        state.len() <= w.state,
        started_at.len() <= w.started_at,
    ensures
        is_aligned(
            table_line(w, session_id, agent_kind, state, started_at),
            w,
            agent_kind,
            state,
            started_at,
        ),
{
    reveal_strlit("  ");
    let line = table_line(w, session_id, agent_kind, state, started_at);
    let a = w.session_id + 2;
    let b = a + w.agent_kind + 2;
    let c = b + w.state + 2;
    assert(line.subrange(a as int, (a + agent_kind.len()) as int) =~= agent_kind);
    assert(line.subrange(b as int, (b + state.len()) as int) =~= state);
    assert(line.subrange(c as int, (c + started_at.len()) as int) =~= started_at);
}

/// In every line of a page, each column starts at the same place, however long
/// the ids are.
pub proof fn law_columns_align(s: Seq<RowModel>, started: Seq<Seq<char>>, i: int)
    requires
        s.len() == started.len(),
        0 <= i < s.len(),
    ensures
        is_aligned(
            session_line(widths(s, started), s[i], started[i]),
            widths(s, started),
            s[i].agent_kind,
            s[i].state,
            started[i],
        ),
        is_aligned(
            table_line(
                widths(s, started),
                "session_id"@,
                "agent_kind"@,
                "state"@,
                "started_at"@,
            ),
            widths(s, started),
            "agent_kind"@,
            "state"@,
            "started_at"@,
        ),
{
    reveal_strlit("session_id");
    reveal_strlit("agent_kind");
    reveal_strlit("state");
    reveal_strlit("started_at");
    let w = widths(s, started);
    lemma_widest_covers(cells(s, Column::SessionId), 37, i);
    lemma_widest_covers(cells(s, Column::AgentKind), 14, i);
    lemma_widest_covers(cells(s, Column::State), 10, i);
    lemma_widest_covers(started, 20, i);
    assert(cells(s, Column::SessionId)[i] == s[i].session_id);
    assert(cells(s, Column::AgentKind)[i] == s[i].agent_kind);
    assert(cells(s, Column::State)[i] == s[i].state);
    lemma_line_aligned(w, s[i].session_id, s[i].agent_kind, s[i].state, started[i]);
    lemma_line_aligned(w, "session_id"@, "agent_kind"@, "state"@, "started_at"@);
}

//// Stopping and resuming

#[derive(Debug, Clone, Copy, PartialEq, Eq, Structural)]
pub enum SessionMutationKind {
    Stop,
    Resume,
}

impl SessionMutationKind {
    /// The word for the change.
    pub open spec fn word(self) -> Seq<char> {
        match self {
            SessionMutationKind::Stop => "stop"@,
            SessionMutationKind::Resume => "resume"@,
        }
    }

    /// The state that the change leads to.
    pub open spec fn goal(self) -> Seq<char> {
        match self {
            SessionMutationKind::Stop => "stopped"@,
            SessionMutationKind::Resume => "active"@,
        }
    }

    pub fn action(self) -> (r: &'static str)
        ensures
            r@ == self.word(),
    {
        match self {
            SessionMutationKind::Stop => "stop",
            SessionMutationKind::Resume => "resume",
        }
    }

    pub fn json_kind(self) -> (r: &'static str)
        ensures
            r@ == "agent_session_"@ + self.word(),
    {
        proof {
            reveal_strlit("agent_session_");
            reveal_strlit("agent_session_stop");
            reveal_strlit("agent_session_resume");
            reveal_strlit("stop");
            reveal_strlit("resume");
            assert("agent_session_stop"@ =~= "agent_session_"@ + "stop"@);
            assert("agent_session_resume"@ =~= "agent_session_"@ + "resume"@);
        }
        match self {
            SessionMutationKind::Stop => "agent_session_stop",
            SessionMutationKind::Resume => "agent_session_resume",
        }
    }
}

/// What is read of a session before it is changed.
#[derive(Debug, PartialEq, Eq)]
pub struct SessionStateRow {
    pub state: String,
    pub stopped_at: Option<i64>,
    pub last_event_at: i64,
    pub scope_state: Option<String>,
    pub worktree_id: Option<String>,
}

/// What a [`SessionStateRow`] says.
#[verifier::ext_equal]
pub struct StateModel {
    pub state: Seq<char>,
    pub stopped_at: Option<i64>,
    pub last_event_at: i64,
    pub scope_state: Option<Seq<char>>,
    pub worktree_id: Option<Seq<char>>,
}

impl View for SessionStateRow {
    type V = StateModel;

    open spec fn view(&self) -> StateModel {
        StateModel {
            state: self.state@,
            stopped_at: self.stopped_at,
            last_event_at: self.last_event_at,
            scope_state: text::opt_text(self.scope_state),
            worktree_id: text::opt_text(self.worktree_id),
        }
    }
}

impl StateModel {
    /// The worktree that a session belongs to; the main one has no id.
    pub open spec fn worktree(self) -> Seq<char> {
        match self.worktree_id {
            Some(w) => w,
            None => Seq::empty(),
        }
    }
}

/// What became of a session.
#[derive(Debug, PartialEq, Eq)]
pub struct SessionMutationOutput {
    pub action: &'static str,
    pub session_id: String,
    pub previous_state: String,
    pub state: String,
    pub updated: bool,
    pub stopped_at: Option<i64>,
    pub last_event_at: i64,
}

/// What a [`SessionMutationOutput`] says.
#[verifier::ext_equal]
pub struct MutationModel {
    pub action: Seq<char>,
    pub session_id: Seq<char>,
    pub previous_state: Seq<char>,
    pub state: Seq<char>,
    pub updated: bool,
    pub stopped_at: Option<i64>,
    pub last_event_at: i64,
}

impl View for SessionMutationOutput {
    type V = MutationModel;

    open spec fn view(&self) -> MutationModel {
        MutationModel {
            action: self.action@,
            session_id: self.session_id@,
            previous_state: self.previous_state@,
            state: self.state@,
            updated: self.updated,
            stopped_at: self.stopped_at,
            last_event_at: self.last_event_at,
        }
    }
}

/// The sentence for a session that predates scopes.
pub open spec fn unscoped_message(id: Seq<char>) -> Seq<char> {
    "session '"@ + id
        + "' predates workspace scoping and is excluded from new writes; adopt it first with `libra worktree doctor <workspace-id> --adopt-capture-session "@
        + id + " --confirm`"@
}

/// What becomes of a session, or why nothing does. A quarantined one is left
/// alone. One that is where it shall be stays as it is, and only a stopped one
/// can be resumed. A change is for sessions of the own worktree, and not for
/// those that predate scopes.
pub open spec fn mutation(
    id: Seq<char>,
    kind: SessionMutationKind,
    row: StateModel,
    current_worktree: Seq<char>,
    now: i64,
) -> Result<MutationModel, Seq<char>> {
    if row.state == "quarantined"@ {
        Err(
            "cannot "@ + kind.word() + " captured session '"@ + id
                + "' because it is quarantined; inspect the capture state before mutating it"@,
        )
    } else if row.state == kind.goal() {
        Ok(
            MutationModel {
                action: kind.word(),
                session_id: id,
                previous_state: row.state,
                state: row.state,
                updated: false,
                stopped_at: row.stopped_at,
                last_event_at: row.last_event_at,
            },
        )
    } else if kind is Resume && row.state != "stopped"@ {
        Err(
            "cannot resume captured session '"@ + id + "' from state '"@ + row.state
                + "'; only stopped sessions can be resumed"@,
        )
    } else if row.scope_state == Some("legacy_unknown"@) {
        Err(unscoped_message(id))
    } else if row.scope_state == Some("scoped"@) && row.worktree() != current_worktree {
        Err(
            "session '"@ + id + "' is owned by another worktree scope ('"@ + row.worktree()
                + "'); run this from that worktree, or inspect with `libra worktree doctor`"@,
        )
    } else {
        Ok(
            MutationModel {
                action: kind.word(),
                session_id: id,
                previous_state: row.state,
                state: kind.goal(),
                updated: true,
                stopped_at: if kind is Stop {
                    Some(now)
                } else {
                    None
                },
                last_event_at: now,
            },
        )
    }
}

fn opt_is(o: &Option<String>, s: &str) -> (r: bool)
    ensures
        r == (text::opt_text(*o) == Some(s@)),
{
    match o {
        Some(t) => same(t.as_str(), s),
        None => false,
    }
}

fn failure(message: String) -> (r: SessionFailure)
    ensures
        r@ == message@,
{
    SessionFailure { message }
}

/// What becomes of a session that is there.
pub fn change_session(
    session_id: &str,
    kind: SessionMutationKind,
    row: &SessionStateRow,
    current_worktree: &str,
    now: i64,
) -> (r: Result<SessionMutationOutput, SessionFailure>)
    ensures
        (match r {
            Ok(x) => mutation(session_id@, kind, row@, current_worktree@, now) == Ok::<
                MutationModel,
                Seq<char>,
            >(x@),
            Err(e) => mutation(session_id@, kind, row@, current_worktree@, now) == Err::<
                MutationModel,
                Seq<char>,
            >(e@),
        }),
{
    let goal = match kind {
        SessionMutationKind::Stop => "stopped",
        SessionMutationKind::Resume => "active",
    };
    if same(row.state.as_str(), "quarantined") {
        let mut m = joined("cannot ", kind.action());
        m.append(" captured session '");
        m.append(session_id);
        m.append("' because it is quarantined; inspect the capture state before mutating it");
        return Err(failure(m));
    }
    if same(row.state.as_str(), goal) {
        return Ok(
            SessionMutationOutput {
                action: kind.action(),
                session_id: session_id.to_owned(),
                previous_state: row.state.clone(),
                state: row.state.clone(),
                updated: false,
                stopped_at: row.stopped_at,
                last_event_at: row.last_event_at,
            },
        );
    }
    if kind == SessionMutationKind::Resume && !same(row.state.as_str(), "stopped") {
        let mut m = joined("cannot resume captured session '", session_id);
        m.append("' from state '");
        m.append(row.state.as_str());
        m.append("'; only stopped sessions can be resumed");
        return Err(failure(m));
    }
    if opt_is(&row.scope_state, "legacy_unknown") {
        let mut m = joined("session '", session_id);
        m.append(
            "' predates workspace scoping and is excluded from new writes; adopt it first with `libra worktree doctor <workspace-id> --adopt-capture-session ",
        );
        m.append(session_id);
        m.append(" --confirm`");
        return Err(failure(m));
    }
    if opt_is(&row.scope_state, "scoped") {
        let owner = match &row.worktree_id {
            Some(w) => w.clone(),
            None => String::new(),
        };
        if !same(owner.as_str(), current_worktree) {
            let mut m = joined("session '", session_id);
            m.append("' is owned by another worktree scope ('");
            m.append(owner.as_str());
            m.append("'); run this from that worktree, or inspect with `libra worktree doctor`");
            return Err(failure(m));
        }
    }
    let stopped_at = match kind {
        SessionMutationKind::Stop => Some(now),
        SessionMutationKind::Resume => None,
    };
    Ok(
        SessionMutationOutput {
            action: kind.action(),
            session_id: session_id.to_owned(),
            previous_state: row.state.clone(),
            state: goal.to_owned(),
            updated: true,
            stopped_at,
            last_event_at: now,
        },
    )
}

/// What becomes of a session, if it is there.
pub fn mutate_session_state(
    session_id: &str,
    kind: SessionMutationKind,
    has_table: bool,
    row: &Option<SessionStateRow>,
    current_worktree: &str,
    now: i64,
) -> (r: Result<SessionMutationOutput, SessionFailure>)
    ensures
        ({
            let expected = if !has_table {
                Err::<MutationModel, Seq<char>>(no_table_message(session_id@))
            } else {
                match *row {
                    None => Err(no_session_message(session_id@)),
                    Some(x) => mutation(session_id@, kind, x@, current_worktree@, now),
                }
            };
            match r {
                Ok(x) => expected == Ok::<MutationModel, Seq<char>>(x@),
                Err(e) => expected == Err::<MutationModel, Seq<char>>(e@),
            }
        }),
{
    if !has_table {
        return Err(no_table(session_id));
    }
    match row {
        None => Err(no_session(session_id)),
        Some(x) => change_session(session_id, kind, x, current_worktree, now),
    }
}

/// Reads what is needed of a session before it is changed.
pub fn session_state_query(session_id: &str) -> (r: SqlQuery)
    ensures
        r@ == (QueryModel {
            sql:
                "SELECT state, stopped_at, last_event_at, scope_state, worktree_id FROM agent_session WHERE session_id = ? LIMIT 1"@,
            values: seq![sql::text(session_id@)],
        }),
{
    let mut q = SqlQuery::new(
        "SELECT state, stopped_at, last_event_at, scope_state, worktree_id FROM agent_session WHERE session_id = ? LIMIT 1",
    );
    q.push_text(session_id);
    q
}

/// Writes what became of a session, where anything did.
pub fn session_update(output: &SessionMutationOutput) -> (r: Option<SqlQuery>)
    ensures
        (match r {
            Some(q) => output.updated && q@ == (QueryModel {
                sql:
                    "UPDATE agent_session SET state = ?, last_event_at = ?, stopped_at = ?, sync_revision = sync_revision + 1 WHERE session_id = ?"@,
                values: seq![
                    sql::text(output@.state),
                    sql::number(output@.last_event_at),
                    SqlModel::BigInt(output@.stopped_at),
                    sql::text(output@.session_id),
                ],
            }),
            None => !output.updated,
        }),
{
    if !output.updated {
        return None;
    }
    let mut q = SqlQuery::new(
        "UPDATE agent_session SET state = ?, last_event_at = ?, stopped_at = ?, sync_revision = sync_revision + 1 WHERE session_id = ?",
    );
    q.push_text(output.state.as_str());
    q.push_number(output.last_event_at);
    q.push_opt_number(output.stopped_at);
    q.push_text(output.session_id.as_str());
    Some(q)
}

/// The line that tells what became of a session.
pub fn mutation_line(output: &SessionMutationOutput) -> (r: String)
    ensures
        r@ == if output.updated {
            "session '"@ + output@.session_id + "' "@ + output@.action + ": "@
                + output@.previous_state + " -> "@ + output@.state
        } else {
            "session '"@ + output@.session_id + "' already "@ + output@.state
        },
{
    let mut m = joined("session '", output.session_id.as_str());
    if output.updated {
        m.append("' ");
        m.append(output.action);
        m.append(": ");
        m.append(output.previous_state.as_str());
        m.append(" -> ");
        m.append(output.state.as_str());
    } else {
        m.append("' already ");
        m.append(output.state.as_str());
    }
    m
}

/// The row of a session once it was changed.
pub open spec fn row_after(row: StateModel, m: MutationModel) -> StateModel {
    StateModel {
        state: m.state,
        stopped_at: m.stopped_at,
        last_event_at: m.last_event_at,
        ..row
    }
}

/// A session is changed only where it is neither quarantined nor from before
/// scopes, and belongs to the own worktree if it belongs to any.
pub proof fn law_changes_stay_in_scope(
    id: Seq<char>,
    kind: SessionMutationKind,
    row: StateModel,
    current_worktree: Seq<char>,
    now: i64,
)
    ensures
        mutation(id, kind, row, current_worktree, now) matches Ok(m) && m.updated ==> row.state
            != "quarantined"@ && row.scope_state != Some("legacy_unknown"@) && (row.scope_state
            == Some("scoped"@) ==> row.worktree() == current_worktree),
{
}

/// Doing the same twice changes nothing more.
pub proof fn law_mutation_is_idempotent(
    id: Seq<char>,
    kind: SessionMutationKind,
    row: StateModel,
    current_worktree: Seq<char>,
    now: i64,
    later: i64,
)
    requires
        mutation(id, kind, row, current_worktree, now) is Ok,
    ensures
        ({
            let first = mutation(id, kind, row, current_worktree, now)->Ok_0;
            let after = row_after(row, first);
            &&& mutation(id, kind, after, current_worktree, later) matches Ok(second)
            &&& !second.updated
            &&& row_after(after, second) == after
        }),
{
    reveal_strlit("quarantined");
    reveal_strlit("stopped");
    reveal_strlit("active");
    assert("quarantined"@.len() == 11 && "stopped"@.len() == 7 && "active"@.len() == 6);
    let first = mutation(id, kind, row, current_worktree, now)->Ok_0;
    let after = row_after(row, first);
    let second = mutation(id, kind, after, current_worktree, later)->Ok_0;
    assert(row_after(after, second) =~= after);
}

/// A session that was stopped can be resumed from the same worktree, and is
/// then active and no longer stopped.
pub proof fn law_resume_undoes_stop(
    id: Seq<char>,
    row: StateModel,
    current_worktree: Seq<char>,
    now: i64,
    later: i64,
)
    requires
        mutation(id, SessionMutationKind::Stop, row, current_worktree, now) matches Ok(m)
            && m.updated,
    ensures
        ({
            let stopped = mutation(id, SessionMutationKind::Stop, row, current_worktree, now)->Ok_0;
            let after = row_after(row, stopped);
            &&& mutation(id, SessionMutationKind::Resume, after, current_worktree, later)
                matches Ok(m)
            &&& m.updated
            &&& m.state == "active"@
            &&& m.stopped_at is None
        }),
{
    reveal_strlit("quarantined");
    reveal_strlit("stopped");
    reveal_strlit("active");
    assert("quarantined"@.len() == 11 && "stopped"@.len() == 7 && "active"@.len() == 6);
}

//// Showing

/// Reads a session to show it.
pub fn show_session_query(session_id: &str) -> (r: SqlQuery)
    ensures
        r@ == (QueryModel {
            sql:
                "SELECT session_id, agent_kind, state, working_dir, started_at, last_event_at, COALESCE(metadata_json, '{}') AS metadata_json FROM agent_session WHERE session_id = ? LIMIT 1"@,
            values: seq![sql::text(session_id@)],
        }),
{
    let mut q = SqlQuery::new(
        "SELECT session_id, agent_kind, state, working_dir, started_at, last_event_at, COALESCE(metadata_json, '{}') AS metadata_json FROM agent_session WHERE session_id = ? LIMIT 1",
    );
    q.push_text(session_id);
    q
}

/// The session to show, if it is there, with what its capture left of failures.
pub fn show_session(
    session_id: &str,
    has_table: bool,
    row: Option<SessionRow>,
    diagnostic: CaptureDiagnostic,
) -> (r: Result<SessionRow, SessionFailure>)
    ensures
        (match r {
            Ok(x) => {
                &&& has_table
                &&& row matches Some(y)
                &&& x@ == (RowModel {
                    capture_status: text::opt_text(diagnostic.status),
                    capture_error_code: text::opt_text(diagnostic.error_code),
                    capture_error_stage: text::opt_text(diagnostic.error_stage),
                    capture_failed_at: diagnostic.failed_at,
                    ..y@
                })
            },
            Err(e) => if !has_table {
                e@ == no_table_message(session_id@)
            } else {
                row is None && e@ == no_session_message(session_id@)
            },
        }),
{
    if !has_table {
        return Err(no_table(session_id));
    }
    match row {
        None => Err(no_session(session_id)),
        Some(y) => {
            let mut x = y;
            x.capture_status = diagnostic.status;
            x.capture_error_code = diagnostic.error_code;
            x.capture_error_stage = diagnostic.error_stage;
            x.capture_failed_at = diagnostic.failed_at;
            Ok(x)
        },
    }
}

/// A line for a text that may be missing: one or none.
pub open spec fn opt_line(label: Seq<char>, o: Option<Seq<char>>) -> Seq<Seq<char>> {
    match o {
        Some(s) => seq![label + s],
        None => Seq::empty(),
    }
}

/// The lines that show what a capture left of failures.
pub open spec fn capture_lines(m: RowModel) -> Seq<Seq<char>> {
    match m.capture_status {
        None => Seq::empty(),
        Some(status) => {
            seq!["capture_status: "@ + status] + opt_line(
                "capture_error : "@,
                m.capture_error_code,
            ) + opt_line("capture_stage : "@, m.capture_error_stage) + (match m.capture_failed_at {
                Some(t) => seq!["capture_failed: "@ + text::signed_decimal(t as int)],
                None => Seq::empty(),
            }) + seq![
                "capture_retry : next Codex Stop or `libra agent import --session <id> --agent codex --yes`"@,
            ]
        },
    }
}

/// The lines that show a session.
pub open spec fn shown(m: RowModel) -> Seq<Seq<char>> {
    seq![
        "session_id    : "@ + m.session_id,
        "agent_kind    : "@ + m.agent_kind,
        "state         : "@ + m.state,
        "working_dir   : "@ + m.working_dir,
        "started_at    : "@ + text::signed_decimal(m.started_at as int),
        "last_event_at : "@ + text::signed_decimal(m.last_event_at as int),
    ] + capture_lines(m)
}

fn push_line(lines: &mut Vec<String>, label: &str, value: &str)
    ensures
        text::texts(final(lines)@) == text::texts(old(lines)@).push(label@ + value@),
{
    let ghost before = text::texts(lines@);
    let line = joined(label, value);
    let ghost m = line@;
    lines.push(line);
    assert(text::texts(lines@) =~= before.push(m));
}

fn push_opt_line(lines: &mut Vec<String>, label: &str, value: &Option<String>)
    ensures
        text::texts(final(lines)@) == text::texts(old(lines)@) + opt_line(
            label@,
            text::opt_text(*value),
        ),
{
    let ghost before = text::texts(lines@);
    match value {
        Some(s) => push_line(lines, label, s.as_str()),
        None => {},
    }
    assert(text::texts(lines@) =~= before + opt_line(label@, text::opt_text(*value)));
}

fn push_capture_lines(lines: &mut Vec<String>, row: &SessionRow)
    ensures
        text::texts(final(lines)@) == text::texts(old(lines)@) + capture_lines(row@),
{
    let ghost before = text::texts(lines@);
    if let Some(status) = &row.capture_status {
        push_line(lines, "capture_status: ", status.as_str());
        push_opt_line(lines, "capture_error : ", &row.capture_error_code);
        push_opt_line(lines, "capture_stage : ", &row.capture_error_stage);
        let ghost so_far = text::texts(lines@);
        if let Some(t) = row.capture_failed_at {
            push_line(lines, "capture_failed: ", signed_decimal_text(t).as_str());
        }
        let ghost with_time = text::texts(lines@);
        let retry =
            "capture_retry : next Codex Stop or `libra agent import --session <id> --agent codex --yes`".to_owned();
        let ghost m = retry@;
        lines.push(retry);
        assert(text::texts(lines@) =~= with_time.push(m));
    }
    assert(text::texts(lines@) =~= before + capture_lines(row@));
}

/// The lines that show a session.
pub fn session_lines(row: &SessionRow) -> (r: Vec<String>)
    ensures
        text::texts(r@) == shown(row@),
{
    let mut lines: Vec<String> = Vec::new();
    assert(text::texts(lines@) =~= Seq::<Seq<char>>::empty());
    push_line(&mut lines, "session_id    : ", row.session_id.as_str());
    push_line(&mut lines, "agent_kind    : ", row.agent_kind.as_str());
    push_line(&mut lines, "state         : ", row.state.as_str());
    push_line(&mut lines, "working_dir   : ", row.working_dir.as_str());
    push_line(&mut lines, "started_at    : ", signed_decimal_text(row.started_at).as_str());
    push_line(&mut lines, "last_event_at : ", signed_decimal_text(row.last_event_at).as_str());
    push_capture_lines(&mut lines, row);
    lines
}

/// A copied transcript.
#[derive(Debug, PartialEq, Eq)]
pub struct TranscriptExtraction {
    pub source_path: String,
    pub output_path: String,
    pub bytes: u64,
}

/// The lines that tell of a copied transcript.
pub fn transcript_lines(t: &TranscriptExtraction) -> (r: Vec<String>)
    ensures
        text::texts(r@) == seq![
            "transcript     : "@ + t.output_path@,
            "transcript_src : "@ + t.source_path@,
            "transcript_len : "@ + (text::decimal(t.bytes as nat) + " bytes"@),
        ],
{
    let mut lines: Vec<String> = Vec::new();
    assert(text::texts(lines@) =~= Seq::<Seq<char>>::empty());
    push_line(&mut lines, "transcript     : ", t.output_path.as_str());
    push_line(&mut lines, "transcript_src : ", t.source_path.as_str());
    let mut len = decimal_text(t.bytes);
    len.append(" bytes");
    push_line(&mut lines, "transcript_len : ", len.as_str());
    lines
}

//// Tool calls

/// The line of a tool call.
pub open spec fn tool_line(t: ToolCallRecord) -> Seq<char> {
    padded(t.tool_name@, 24) + "  "@ + padded(t.action@, 14) + "  "@ + (if t.success {
        "true"@
    } else {
        "false"@
    })
}

/// The lines that list the tool calls of a session.
pub open spec fn tool_lines(session_id: Seq<char>, s: Seq<ToolCallRecord>) -> Seq<Seq<char>> {
    if s.len() == 0 {
        seq!["(no tool_use events derived from session '"@ + session_id + "')"@]
    } else {
        seq![
            "Derived "@ + text::decimal(s.len()) + " tool call(s) from '"@ + session_id + "':"@,
            padded("tool_name"@, 24) + "  "@ + padded("action"@, 14) + "  success"@,
        ] + s.map_values(|t: ToolCallRecord| tool_line(t))
    }
}

fn push_text_line(lines: &mut Vec<String>, line: String)
    ensures
        text::texts(final(lines)@) == text::texts(old(lines)@).push(line@),
{
    let ghost before = text::texts(lines@);
    let ghost m = line@;
    lines.push(line);
    assert(text::texts(lines@) =~= before.push(m));
}

/// The lines that list the tool calls of a session.
pub fn tool_call_lines(session_id: &str, records: &[ToolCallRecord]) -> (r: Vec<String>)
    ensures
        text::texts(r@) == tool_lines(session_id@, records@),
{
    let mut lines: Vec<String> = Vec::new();
    assert(text::texts(lines@) =~= Seq::<Seq<char>>::empty());
    if records.len() == 0 {
        let mut m = joined("(no tool_use events derived from session '", session_id);
        m.append("')");
        push_text_line(&mut lines, m);
        return lines;
    }
    let mut first = joined("Derived ", decimal_text(records.len() as u64).as_str());
    first.append(" tool call(s) from '");
    first.append(session_id);
    first.append("':");
    push_text_line(&mut lines, first);
    let mut header = String::new();
    push_padded(&mut header, "tool_name", 24);
    assert(header@ =~= padded("tool_name"@, 24));
    header.append("  ");
    push_padded(&mut header, "action", 14);
    header.append("  success");
    push_text_line(&mut lines, header);
    let ghost head = text::texts(lines@);
    let ghost body = records@.map_values(|t: ToolCallRecord| tool_line(t));
    assert(head + body.take(0) =~= head);
    let mut i: usize = 0;
    while i < records.len()
        invariant
            i <= records@.len(),
            body == records@.map_values(|t: ToolCallRecord| tool_line(t)),
            text::texts(lines@) == head + body.take(i as int),
        decreases records@.len() - i,
    {
        let ghost before = text::texts(lines@);
        let t = &records[i];
        let mut line = String::new();
        push_padded(&mut line, t.tool_name.as_str(), 24);
        assert(line@ =~= padded(t.tool_name@, 24));
        line.append("  ");
        push_padded(&mut line, t.action.as_str(), 14);
        line.append("  ");
        line.append(
            if t.success {
                "true"
            } else {
                "false"
            },
        );
        assert(line@ == body[i as int]);
        push_text_line(&mut lines, line);
        assert(text::texts(lines@) =~= head + body.take(i + 1));
        i += 1;
    }
    assert(body.take(i as int) =~= body);
    lines
}

} // verus!
