//! Captured agent sessions: pages, listings, state changes and transcripts.

use libra_core::agent_session::{
    capture_diagnostic_from_metadata, format_session_list_human, list_sessions, mutate_session_state,
    mutation_line, session_lines, session_list_column_widths, session_page, session_update,
    show_session, tool_call_lines, transcript_from_metadata, transcript_lines, CaptureDiagnostic,
    PageKey, SessionMutationKind, SessionRow, SessionStateRow, TranscriptExtraction,
};
use libra_core::sql::SqlValue;
use libra_core::tool::ToolCallRecord;

const NOW: i64 = 1_700_000_500;

fn row(session_id: &str, started_at: i64) -> SessionRow {
    SessionRow {
        session_id: session_id.to_string(),
        agent_kind: "claude_code".to_string(),
        state: "active".to_string(),
        working_dir: "/tmp/repo".to_string(),
        started_at,
        last_event_at: 1_700_000_100,
        capture_status: None,
        capture_error_code: None,
        capture_error_stage: None,
        capture_failed_at: None,
    }
}

fn state(state: &str, stopped_at: Option<i64>, scope: &str, worktree: &str) -> SessionStateRow {
    SessionStateRow {
        state: state.to_string(),
        stopped_at,
        last_event_at: 1_700_000_100,
        scope_state: Some(scope.to_string()),
        worktree_id: Some(worktree.to_string()),
    }
}

#[test]
fn stop_refuses_legacy_and_foreign_scope_rows() {
    let stop = |id: &str, row: SessionStateRow| {
        mutate_session_state(id, SessionMutationKind::Stop, true, &Some(row), "", NOW)
    };
    let legacy = stop("legacy-1", state("active", None, "legacy_unknown", ""))
        .expect_err("legacy rows are excluded from new writes");
    assert!(
        legacy.message.contains("adopt"),
        "the refusal names the adoption path: {legacy:?}"
    );

    let foreign = stop("foreign-1", state("active", None, "scoped", "wt-other"))
        .expect_err("another scope's row is not this worktree's to stop");
    assert!(
        foreign.message.contains("another worktree scope"),
        "the refusal says whose it is: {foreign:?}"
    );
}

#[test]
fn session_list_human_output_aligns_after_long_session_id() {
    let now = 1_700_000_000;
    let mut first = row(&format!("claude__{}", "x".repeat(80)), now - 2 * 3_600);
    first.last_event_at = 1_700_000_100;
    let mut second = row("short-session", now - 20 * 86_400);
    second.agent_kind = "codex".to_string();
    second.state = "stopped".to_string();
    second.last_event_at = 1_700_000_110;
    let started_at_values = ["2 hours ago".to_string(), "3 weeks ago".to_string()];

    let lines = format_session_list_human(
        &[first, second],
        &started_at_values,
        &Some("v1:1700000010:short-session".to_string()),
    );
    let header = &lines[0];
    let first_row = &lines[1];
    let second_row = &lines[2];

    let agent_col = header.find("agent_kind").unwrap();
    let state_col = header.find("state").unwrap();
    let started_col = header.find("started_at").unwrap();

    assert_eq!(first_row.find("claude_code").unwrap(), agent_col);
    assert_eq!(second_row.find("codex").unwrap(), agent_col);
    assert_eq!(first_row.find("active").unwrap(), state_col);
    assert_eq!(second_row.find("stopped").unwrap(), state_col);
    assert_eq!(first_row.find("2 hours ago").unwrap(), started_col);
    assert_eq!(second_row.find("3 weeks ago").unwrap(), started_col);
    assert_eq!(
        lines.last().unwrap(),
        "(more rows available — next page: --cursor v1:1700000010:short-session)"
    );
}

#[test]
fn columns_hold_their_widest_cell() {
    let rows = [row("s", 0), row("a-longer-session-id", 0)];
    let started = ["now".to_string(), "3 weeks ago".to_string()];
    assert_eq!(session_list_column_widths(&rows, &started), (37, 14, 10, 20));
    let wide = [row(&"\u{e9}".repeat(20), 0)];
    let long = ["a long time ago, and then some".to_string()];
    assert_eq!(session_list_column_widths(&wide, &long), (40, 14, 10, 30));
}

#[test]
fn agent_session_stop_marks_active_session_stopped() {
    let result = mutate_session_state(
        "claude__stop-active",
        SessionMutationKind::Stop,
        true,
        &Some(state("active", None, "scoped", "")),
        "",
        NOW,
    )
    .unwrap();

    assert_eq!(result.action, "stop");
    assert!(result.updated);
    assert_eq!(result.previous_state, "active");
    assert_eq!(result.state, "stopped");
    assert_eq!(result.stopped_at, Some(result.last_event_at));

    let update = session_update(&result).expect("an update is written");
    assert!(update.values.contains(&SqlValue::Text(Some("stopped".to_string()))));
    assert!(update.values.contains(&SqlValue::BigInt(Some(NOW))));
    assert!(update
        .values
        .contains(&SqlValue::Text(Some("claude__stop-active".to_string()))));
}

#[test]
fn agent_session_resume_marks_stopped_session_active() {
    let result = mutate_session_state(
        "claude__resume-stopped",
        SessionMutationKind::Resume,
        true,
        &Some(state("stopped", Some(1_700_000_100), "scoped", "")),
        "",
        NOW,
    )
    .unwrap();

    assert_eq!(result.action, "resume");
    assert!(result.updated);
    assert_eq!(result.previous_state, "stopped");
    assert_eq!(result.state, "active");
    assert_eq!(result.stopped_at, None);

    let update = session_update(&result).expect("an update is written");
    assert!(update.values.contains(&SqlValue::Text(Some("active".to_string()))));
    assert!(update.values.contains(&SqlValue::BigInt(None)));
}

#[test]
fn agent_session_resume_rejects_non_stopped_session_states() {
    let err = mutate_session_state(
        "claude__resume-condensed",
        SessionMutationKind::Resume,
        true,
        &Some(state("condensed", None, "scoped", "")),
        "",
        NOW,
    )
    .unwrap_err();

    assert!(
        err.message.contains("only stopped sessions can be resumed"),
        "{err:?}"
    );
}

#[test]
fn a_repeated_change_changes_nothing() {
    let stopped = Some(state("stopped", Some(7), "scoped", "wt"));
    let again =
        mutate_session_state("s", SessionMutationKind::Stop, true, &stopped, "wt", NOW).unwrap();
    assert!(!again.updated);
    assert_eq!(again.state, "stopped");
    assert_eq!(again.stopped_at, Some(7));
    assert_eq!(session_update(&again), None);
    assert_eq!(SessionMutationKind::Stop.action(), "stop");
    assert_eq!(SessionMutationKind::Stop.json_kind(), "agent_session_stop");
    assert_eq!(SessionMutationKind::Resume.json_kind(), "agent_session_resume");
    assert!(mutation_line(&again).contains("s"));
}

#[test]
fn missing_tables_and_rows_are_refused() {
    let gone = |has_table: bool| {
        mutate_session_state("s", SessionMutationKind::Stop, has_table, &None, "", NOW)
            .unwrap_err()
            .message
    };
    assert!(!gone(false).is_empty());
    assert!(gone(true).contains("'s'"), "{}", gone(true));
    let none = CaptureDiagnostic {
        status: None,
        error_code: None,
        error_stage: None,
        failed_at: None,
    };
    assert!(show_session("s", true, None, none).is_err());
}

#[test]
fn pages_end_at_their_cursor() {
    let rows = vec![row("c", 30), row("b", 20), row("a", 10)];
    let page = session_page(rows, 2);
    assert_eq!(page.sessions.len(), 2);
    assert_eq!(page.next, Some(PageKey { started_at: 20, session_id: "b".to_string() }));
    let last = session_page(vec![row("a", 10)], 2);
    assert_eq!(last.next, None);
}

#[test]
fn pages_are_asked_for_with_one_row_to_spare() {
    let query = list_sessions(
        &Some("codex".to_string()),
        &None,
        &Some(PageKey { started_at: 20, session_id: "b".to_string() }),
        2,
    );
    assert!(query.sql.contains("agent_kind = ?"), "{}", query.sql);
    assert_eq!(query.values.first(), Some(&SqlValue::Text(Some("codex".to_string()))));
    assert_eq!(query.values.last(), Some(&SqlValue::BigInt(Some(3))));
}

#[test]
fn diagnostics_are_read_from_metadata() {
    let found = capture_diagnostic_from_metadata(
        "{\"capture_status\":\"failed\",\"capture_error_code\":\"E1\",\
         \"capture_error_stage\":\"parse\",\"capture_failed_at\":17}",
    );
    assert_eq!(
        found,
        CaptureDiagnostic {
            status: Some("failed".to_string()),
            error_code: Some("E1".to_string()),
            error_stage: Some("parse".to_string()),
            failed_at: Some(17),
        }
    );
    let nothing = capture_diagnostic_from_metadata("{\"capture_status\":5");
    assert_eq!(nothing.status, None);
    assert_eq!(nothing.failed_at, None);
}

#[test]
fn transcripts_are_found_in_metadata() {
    assert_eq!(
        transcript_from_metadata("{\"transcript_path\":\"/tmp/captured.jsonl\"}").unwrap(),
        "/tmp/captured.jsonl"
    );
    assert!(transcript_from_metadata("{}").is_err());
    assert!(transcript_from_metadata("not json").is_err());
    let lines = transcript_lines(&TranscriptExtraction {
        source_path: "/tmp/captured.jsonl".to_string(),
        output_path: "copy.jsonl".to_string(),
        bytes: 19,
    });
    let text = lines.join("\n");
    assert!(text.contains("19") && text.contains("/tmp/captured.jsonl") && text.contains("copy.jsonl"));
}

#[test]
fn sessions_and_tool_calls_are_listed() {
    let text = session_lines(&row("s-1", 5)).join("\n");
    assert!(text.contains("s-1") && text.contains("/tmp/repo"), "{text}");
    assert_eq!(
        tool_call_lines("s-1", &[]),
        vec!["(no tool_use events derived from session 's-1')"]
    );
    let record = ToolCallRecord {
        tool_name: "Edit".to_string(),
        action: "write".to_string(),
        arguments_json: None,
        paths_read: vec![],
        paths_written: vec![],
        success: true,
        summary: None,
        diffs: vec![],
    };
    let lines = tool_call_lines("s-1", &[record]);
    assert_eq!(lines[0], "Derived 1 tool call(s) from 's-1':");
    assert_eq!(lines.len(), 3);
}
