//! Commands on their way through the operation boundary, and the questions
//! that the operation log is asked.

use libra_core::legacy_operation::{OperationQueryPage, OperationServiceError};
use libra_core::oid::Oid;
use libra_core::operation::dispatch::{DispatchAction, DispatchEvent, DispatchRun};
use libra_core::operation::filter::{
    abandon, find_operation_record, list_operation_records, list_operations_by_repo_paginated,
    recent_duplicate_candidates, running_control, RowOrder,
};
use libra_core::operation::middleware::{MiddlewareError, MutationClass, RunAction};
use libra_core::operation::store::{JournalPhase, OpHead, OperationStatusV2, StoreError};
use libra_core::sql::SqlValue;

fn oid(byte: u8) -> Oid {
    Oid::parse(&format!("{byte:02x}").repeat(20)).expect("sha1 oid")
}

fn columns(names: &[&str]) -> DispatchEvent {
    DispatchEvent::Columns(names.iter().map(|name| name.to_string()).collect())
}

fn start(class: MutationClass, op_id: &str) -> DispatchRun {
    let (run, action) = DispatchRun::new(
        "repo",
        "wt-1",
        "cherry-pick",
        "pick one",
        "alice",
        Some("sha256:1".to_string()),
        class,
        op_id,
    );
    assert_eq!(action, DispatchAction::ReadColumns);
    run
}

#[test]
fn unrecorded_commands_run_as_they_are() {
    for (class, names) in [
        (MutationClass::ReadOnly, &["op_id", "format_version"][..]),
        (MutationClass::InternalWorker, &["format_version"][..]),
        (MutationClass::Repository, &["op_id", "view_id"][..]),
    ] {
        let mut run = start(class, "op");
        assert_eq!(run.step(columns(names)), DispatchAction::Act);
        assert_eq!(run.step(DispatchEvent::Done), DispatchAction::Return);
    }
    let mut run = start(MutationClass::ReadOnly, "op");
    run.step(columns(&["format_version"]));
    assert_eq!(run.step(DispatchEvent::ActionFailed), DispatchAction::ReturnError);
}

/// Performs every step of a recorded command, and tells what was asked for.
fn perform(succeeds: bool) -> Vec<DispatchAction> {
    let mut run = start(MutationClass::Repository, "op");
    let mut asked = Vec::new();
    let mut views = vec![oid(2), oid(1)];
    let mut event = columns(&["op_id", "format_version"]);
    loop {
        let action = run.step(event);
        event = match &action {
            DispatchAction::CaptureView => DispatchEvent::View(views.pop().expect("two views")),
            DispatchAction::Record(RunAction::ReadHeads) => DispatchEvent::Heads(vec![OpHead {
                op_id: "before".to_string(),
                generation: 3,
            }]),
            DispatchAction::Record(RunAction::CasHeads { proposed, .. }) => {
                DispatchEvent::Heads(vec![proposed.clone()])
            }
            DispatchAction::Act if !succeeds => DispatchEvent::ActionFailed,
            _ => DispatchEvent::Done,
        };
        let last = matches!(
            action,
            DispatchAction::Return | DispatchAction::ReturnError | DispatchAction::Fail(_)
        );
        asked.push(action);
        if last {
            return asked;
        }
    }
}

#[test]
fn recorded_commands_end_with_the_view_they_leave() {
    let asked = perform(true);
    assert_eq!(asked.first(), Some(&DispatchAction::CaptureView));
    assert_eq!(asked.last(), Some(&DispatchAction::Return));
    let acted = asked.iter().position(|a| a == &DispatchAction::Act).expect("the command runs");
    let written = asked
        .iter()
        .position(|a| matches!(a, DispatchAction::Record(RunAction::WriteOperation(_))))
        .expect("the operation is written");
    assert!(written < acted);
    match &asked[written] {
        DispatchAction::Record(RunAction::WriteOperation(operation)) => {
            assert_eq!(operation.metadata.command_name.as_deref(), Some("commit"));
            assert_eq!(operation.metadata.scope_kind, "linked");
            assert_eq!(operation.post_view_oid, oid(1));
        }
        other => panic!("{other:?}"),
    }
    assert!(asked.contains(&DispatchAction::Complete {
        op_id: "op".to_string(),
        post_view_oid: oid(2),
        status: OperationStatusV2::Success,
    }));
    match &asked[asked.len() - 2] {
        DispatchAction::Describe { op_id, metadata } => {
            assert_eq!(op_id, "op");
            assert_eq!(metadata.command_name.as_deref(), Some("cherry-pick"));
            assert_eq!(metadata.worktree_id.as_deref(), Some("wt-1"));
            assert_eq!(metadata.args_digest.as_deref(), Some("sha256:1"));
        }
        other => panic!("{other:?}"),
    }
    assert!(asked.iter().any(|a| matches!(
        a,
        DispatchAction::Record(RunAction::RecordPhase { phase: JournalPhase::Publish, .. })
    )));
}

#[test]
fn failed_commands_hand_back_their_own_error() {
    let asked = perform(false);
    assert_eq!(asked.last(), Some(&DispatchAction::ReturnError));
    assert!(asked.iter().any(|a| matches!(
        a,
        DispatchAction::Record(RunAction::UpdateStatus {
            status: OperationStatusV2::Failed,
            ..
        })
    )));
    assert!(!asked.iter().any(|a| matches!(
        a,
        DispatchAction::Complete { .. } | DispatchAction::Record(RunAction::CasHeads { .. })
    )));
}

#[test]
fn failures_outside_the_command_are_those_of_the_boundary() {
    let mut run = start(MutationClass::Ref, "op");
    assert_eq!(
        run.step(DispatchEvent::StepFailed("no table".to_string())),
        DispatchAction::Fail(MiddlewareError::Action("no table".to_string()))
    );
    let mut run = start(MutationClass::Ref, " ");
    run.step(columns(&["format_version"]));
    assert_eq!(
        run.step(DispatchEvent::View(oid(1))),
        DispatchAction::Fail(MiddlewareError::EmptyOperationId)
    );
    let mut run = start(MutationClass::Ref, "op");
    run.step(columns(&["format_version"]));
    run.step(DispatchEvent::View(oid(1)));
    assert_eq!(
        run.step(DispatchEvent::StoreFailed(StoreError::Database("locked".to_string()))),
        DispatchAction::Fail(MiddlewareError::Store(StoreError::Database("locked".to_string())))
    );
    assert!(matches!(run.step(DispatchEvent::Done), DispatchAction::Fail(_)));
}

#[test]
fn questions_name_what_they_ask_for() {
    let listed = list_operation_records("repo", 5).unwrap();
    assert_eq!(listed.repo_id.as_deref(), Some("repo"));
    assert_eq!((listed.order, listed.limit), (RowOrder::NewestFirst, Some(5)));
    assert!(matches!(
        list_operation_records("repo", 0),
        Err(OperationServiceError::InvalidArgument(_))
    ));
    let found = find_operation_record("op");
    assert_eq!((found.op_id.as_deref(), found.repo_id), (Some("op"), None));
    let duplicates =
        recent_duplicate_candidates("repo", None, "commit", "sha256:1", 40, 2).unwrap();
    assert_eq!(duplicates.status, Some(OperationStatusV2::Success));
    assert_eq!(duplicates.earliest_end_ts, Some(40));
    assert_eq!(duplicates.worktree_id, None);
    assert!(recent_duplicate_candidates("repo", None, "commit", "d", 40, 0).is_err());
    let control = running_control("repo", "wt-1");
    assert_eq!(control.status, Some(OperationStatusV2::Running));
    assert_eq!((control.order, control.limit), (RowOrder::OldestFirst, Some(1)));
    let given_up = abandon("op", 9);
    assert_eq!(
        given_up.sql,
        "UPDATE operation SET status = 'failed', end_ts = ? WHERE op_id = ? AND status = 'running'"
    );
    assert_eq!(
        given_up.values,
        vec![SqlValue::BigInt(Some(9)), SqlValue::Text(Some("op".to_string()))]
    );
}

#[test]
fn statements_hold_a_value_for_each_condition() {
    let text = |value: &str| SqlValue::Text(Some(value.to_string()));
    let duplicates =
        recent_duplicate_candidates("repo", Some("wt-1".to_string()), "commit", "d", 40, 2)
            .unwrap()
            .statement("op_id");
    assert_eq!(
        duplicates.sql,
        "SELECT op_id FROM operation WHERE 1=1 AND repo_id = ? AND worktree_id = ? AND \
         command_name = ? AND args_digest = ? AND status = ? AND end_ts >= ? ORDER BY end_ts \
         DESC, start_ts DESC, op_id DESC LIMIT 2"
    );
    assert_eq!(
        duplicates.values,
        vec![
            text("repo"),
            text("wt-1"),
            text("commit"),
            text("d"),
            text("success"),
            SqlValue::BigInt(Some(40)),
        ]
    );
    let query = OperationQueryPage { page: 2, per_page: 10 };
    let page = list_operations_by_repo_paginated("repo", None, query).unwrap();
    assert!(page.list.statement("op_id").sql.ends_with(" LIMIT 10 OFFSET 10"));
    assert_eq!(
        page.count.statement("COUNT(*)").sql,
        "SELECT COUNT(*) FROM operation WHERE 1=1 AND repo_id = ?"
    );
}

#[test]
fn pages_count_more_than_they_list() {
    let query = OperationQueryPage { page: 3, per_page: 20 };
    let page = list_operations_by_repo_paginated("repo", Some(" commit "), query).unwrap();
    assert_eq!(page.count.command_name.as_deref(), Some("commit"));
    assert_eq!((page.count.offset, page.count.limit), (None, None));
    assert_eq!((page.list.offset, page.list.limit), (Some(40), Some(20)));
    assert_eq!(page.query, query);
    let all = list_operations_by_repo_paginated("repo", Some("  "), query).unwrap();
    assert_eq!(all.list.command_name, None);
    assert!(list_operations_by_repo_paginated(" ", None, query).is_err());
}
