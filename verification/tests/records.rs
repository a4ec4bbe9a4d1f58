//! Operation records: validation, pages, stored rows and the running view.

use libra_core::legacy_operation::{
    first_v2_record, operation_has_legacy_view_id, operation_status_from_v2,
    operation_status_to_v2, page_from_v2_rows, persist_v2_graph, stored_graph, zero_object_id,
    OperationGraphRecord, OperationParentRecord, OperationQueryPage, OperationRecord,
    OperationService, OperationServiceError, OperationStatus, OperationViewRecord,
    OperationViewRefRecord, OperationViewWorkspaceRecord, V2OperationRow,
};
use libra_core::legacy_statements;
use libra_core::oid::Oid;
use libra_core::operation::middleware::{classify_command, MiddlewareError, MutationClass};
use libra_core::operation::runtime::{
    capture_facet, capture_view, check_limit, collect_refs, decode_view, dispatch_metadata,
    head_after, is_v2_schema, load_graph, middleware_command_name, persist_graph, plan_dispatch,
    repository_view,
    running_control, storage_error, CurrentHead, DispatchPlan, LocalBranch, RemoteRow,
};
use libra_core::operation::statements;
use libra_core::operation::store::{rows_for_operation, OpHead, OperationStatusV2};
use libra_core::sql::SqlValue;

#[test]
fn parents_are_listed_by_their_ids() {
    let query = OperationService::list_parents("op").unwrap();
    assert_eq!(
        query.sql,
        "SELECT op_id, parent_op_id FROM operation_parent WHERE op_id = ? \
         ORDER BY parent_op_id ASC"
    );
    assert_eq!(query.values, vec![SqlValue::Text(Some("op".to_string()))]);
}

#[test]
fn a_deleted_operation_takes_its_edges_and_journal_along() {
    let texts = |legacy: bool| -> Vec<String> {
        OperationService::delete_operation("op", legacy).into_iter().map(|q| q.sql).collect()
    };
    assert_eq!(
        texts(false),
        [
            "DELETE FROM operation_parent WHERE op_id = ?",
            "DELETE FROM operation_journal WHERE op_id = ?",
            "DELETE FROM operation WHERE op_id = ?",
        ]
    );
    assert_eq!(texts(true), ["DELETE FROM operation WHERE op_id = ?"]);
    let row = legacy_statements::delete_operation("op");
    assert_eq!(row.values, vec![SqlValue::Text(Some("op".to_string()))]);
}

#[test]
fn statements_write_rows_column_by_column() {
    let text = |value: &str| SqlValue::Text(Some(value.to_string()));
    let row = OperationService::legacy_row(&sample_record());
    let insert = legacy_statements::insert_operation(&row);
    assert_eq!(insert.values.len(), insert.sql.matches('?').count());
    assert_eq!(insert.values[0], text("op_1"));
    assert_eq!(insert.values[15], text(&row.scope_kind));
    let refs = legacy_statements::list_view_refs("v");
    assert!(refs.sql.ends_with("ORDER BY ref_kind ASC, ref_name ASC, ref_remote ASC"));
    let listed = legacy_statements::list_operations("repo", Some("commit"), 20, Some(40));
    assert!(listed.sql.ends_with("LIMIT ? OFFSET ?"));
    assert_eq!(
        listed.values,
        vec![
            text("repo"),
            text("commit"),
            SqlValue::BigInt(Some(20)),
            SqlValue::BigInt(Some(40))
        ]
    );
    let twice = legacy_statements::recent_duplicates("repo", None, "commit", "d", 5, 2);
    assert_eq!(twice.values.len(), twice.sql.matches('?').count());
    let head = OpHead { op_id: "op".to_string(), generation: 3 };
    let published = statements::insert_head("repo", "main", &head);
    assert_eq!(
        published.values,
        vec![text("repo"), text("main"), text("op"), SqlValue::BigInt(Some(3))]
    );
    let found = statements::find_operation("op");
    assert!(found.sql.contains(statements::OPERATION_COLUMNS));
}

const VIEW: &str = "0202020202020202020202020202020202020202";

fn sample_record() -> OperationRecord {
    OperationRecord {
        op_id: "op_1".to_string(),
        repo_id: "repo_1".to_string(),
        view_id: VIEW.to_string(),
        command_name: "commit".to_string(),
        description: "commit message".to_string(),
        actor: "alice".to_string(),
        args_digest: Some("sha256:abcd".to_string()),
        start_ts: 100,
        end_ts: Some(120),
        status: OperationStatus::Succeeded,
        worktree_id: String::new(),
        scope_provenance: "declared".to_string(),
        restorable: true,
        control_slot: None,
        claim_owner: None,
        scope_kind: "main".to_string(),
    }
}

fn sample_view() -> OperationViewRecord {
    OperationViewRecord {
        view_id: VIEW.to_string(),
        repo_id: "repo_1".to_string(),
        head_kind: "branch".to_string(),
        head_target: "main".to_string(),
        created_at: 101,
    }
}

fn sample_ref(target: &str) -> OperationViewRefRecord {
    OperationViewRefRecord {
        view_id: VIEW.to_string(),
        ref_kind: "branch".to_string(),
        ref_name: "main".to_string(),
        ref_remote: None,
        target_oid: target.to_string(),
    }
}

fn sample_graph() -> OperationGraphRecord {
    OperationGraphRecord {
        operation: sample_record(),
        parents: vec![OperationParentRecord {
            op_id: "op_1".to_string(),
            parent_op_id: "op_0".to_string(),
        }],
        view: sample_view(),
        refs: vec![sample_ref("abc")],
        workspace: vec![OperationViewWorkspaceRecord {
            view_id: VIEW.to_string(),
            pointer_kind: "head".to_string(),
            pointer_value: "main".to_string(),
        }],
    }
}

fn refused(result: Result<(), OperationServiceError>) -> String {
    match result {
        Err(OperationServiceError::InvalidArgument(message)) => message,
        other => panic!("expected a refusal, got {other:?}"),
    }
}

#[test]
fn query_pages_are_held_to_limits() {
    let normalized =
        OperationService::normalize_query_page(OperationQueryPage { page: 0, per_page: 999 });
    assert_eq!(normalized.page, 1);
    assert_eq!(normalized.per_page, OperationQueryPage::MAX_PER_PAGE);
    let normalized =
        OperationService::normalize_query_page(OperationQueryPage { page: 3, per_page: 20 });
    assert_eq!(normalized.page, 3);
    assert_eq!(normalized.per_page, 20);
    assert_eq!(normalized.offset(), 40);
    assert_eq!(normalized.normalized(), normalized);
}

#[test]
fn timestamps_run_forward() {
    let mut record = sample_record();
    assert!(OperationService::validate_record(&record).is_ok());
    record.end_ts = Some(99);
    let error = OperationService::validate_record(&record).unwrap_err();
    assert!(error
        .message()
        .contains("end_ts must be greater than or equal to start_ts"));
}

#[test]
fn records_name_their_operation() {
    let mut record = sample_record();
    record.op_id = " ".to_string();
    assert!(matches!(
        OperationService::validate_record(&record),
        Err(OperationServiceError::InvalidArgument(_))
    ));
    for request in [
        OperationService::find_operation_by_id(" "),
        OperationService::list_operations_by_repo("", 1),
        OperationService::list_operations_by_repo("repo_1", 0),
        OperationService::list_parents(" "),
    ] {
        assert!(matches!(request, Err(OperationServiceError::InvalidArgument(_))));
    }
    let query = OperationService::find_operation_by_id("op_1").unwrap();
    assert!(query.sql.ends_with(" WHERE op_id = ? LIMIT 1"));
    assert_eq!(query.values, vec![SqlValue::Text(Some("op_1".to_string()))]);
}

#[test]
fn parents_are_other_operations() {
    let edge = |op: &str, parent: &str| OperationParentRecord {
        op_id: op.to_string(),
        parent_op_id: parent.to_string(),
    };
    refused(OperationService::validate_parent_record(&edge(" ", "op_0")));
    refused(OperationService::validate_parent_record(&edge("op_1", "op_1")));
    assert!(OperationService::validate_parent_record(&edge("op_1", "op_0")).is_ok());
}

#[test]
fn views_and_refs_are_complete() {
    OperationService::validate_view_record(&sample_view()).unwrap();
    let mut view = sample_view();
    view.view_id = " ".to_string();
    refused(OperationService::validate_view_record(&view));
    refused(OperationService::replace_view_refs(VIEW, &[sample_ref(" ")]));
    refused(OperationService::check_view_id(" "));
    assert_eq!(
        refused(OperationService::replace_view_refs("view_2", &[sample_ref("abc")])),
        "all view refs must use the same view_id"
    );
    assert!(OperationService::replace_view_refs(VIEW, &[sample_ref("abc")]).is_ok());
}

#[test]
fn graphs_are_tied_together() {
    assert!(OperationService::validate_graph_record(&sample_graph()).is_ok());
    let mut graph = sample_graph();
    graph.view.repo_id = "repo_2".to_string();
    assert_eq!(
        refused(OperationService::validate_graph_record(&graph)),
        "operation.repo_id must equal view.repo_id"
    );
    let mut graph = sample_graph();
    graph.refs[0].view_id = "view_2".to_string();
    assert_eq!(
        refused(OperationService::validate_graph_record(&graph)),
        "all view refs must belong to view.view_id"
    );
}

#[test]
fn statuses_are_read_back() {
    for status in [
        OperationStatus::Running,
        OperationStatus::Succeeded,
        OperationStatus::Failed,
        OperationStatus::Canceled,
    ] {
        assert_eq!(OperationStatus::from_db_value(status.as_str()).unwrap(), status);
    }
    assert_eq!(operation_status_to_v2(OperationStatus::Succeeded), "success");
    assert_eq!(operation_status_from_v2("success").unwrap(), OperationStatus::Succeeded);
    let error = operation_status_from_v2("done").unwrap_err();
    assert!(error.message().contains("unknown v2 operation status value in storage: done"));
}

#[test]
fn legacy_rows_are_read_back() {
    let record = sample_record();
    let row = OperationService::legacy_row(&record);
    assert_eq!(row.restorable, 1);
    assert_eq!(OperationService::record_from_model(row.clone()).unwrap(), record);
    let item = OperationService::log_list_item_from_model(row.clone()).unwrap();
    assert_eq!((item.op_id.as_str(), item.status), ("op_1", OperationStatus::Succeeded));
    let mut unknown = row;
    unknown.status = "odd".to_string();
    assert!(matches!(
        OperationService::record_from_model(unknown),
        Err(OperationServiceError::Internal(_))
    ));
}

#[test]
fn view_refs_keep_their_remote() {
    let mut record = sample_ref("abc");
    let row = OperationService::view_ref_row(&record);
    assert_eq!(row.ref_remote, "");
    assert_eq!(OperationService::view_ref_from_model(row).unwrap(), record);
    record.ref_remote = Some("origin".to_string());
    let row = OperationService::view_ref_row(&record);
    assert_eq!(OperationService::view_ref_from_model(row).unwrap(), record);
}

fn v2_row(op_id: &str) -> V2OperationRow {
    V2OperationRow {
        op_id: op_id.to_string(),
        repo_id: "repo_1".to_string(),
        command_name: Some("commit".to_string()),
        description: Some("message".to_string()),
        actor: Some("alice".to_string()),
        args_digest: None,
        start_ts: 1,
        end_ts: Some(2),
        status: "success".to_string(),
        worktree_id: None,
        scope_provenance: None,
        restorable: None,
        control_slot: None,
        claim_owner: None,
        scope_kind: "main".to_string(),
        post_view_oid: VIEW.to_string(),
    }
}

#[test]
fn pages_of_rows_keep_their_order() {
    let page = page_from_v2_rows(
        vec![v2_row("op_2"), v2_row("op_1")],
        OperationQueryPage { page: 1, per_page: 2 },
        5,
    )
    .unwrap();
    let ids: Vec<&str> = page.items.iter().map(|item| item.op_id.as_str()).collect();
    assert_eq!(ids, ["op_2", "op_1"]);
    assert_eq!((page.page, page.per_page, page.total), (1, 2, 5));
    assert_eq!(first_v2_record(vec![v2_row("op_9")]).unwrap().unwrap().op_id, "op_9");
    assert_eq!(first_v2_record(vec![]).unwrap(), None);
    let request = OperationService::list_operations_by_repo_and_command_paginated(
        "repo_1",
        Some("  commit "),
        OperationQueryPage { page: 3, per_page: 2 },
    )
    .unwrap();
    assert_eq!(request.command_name.as_deref(), Some("commit"));
    assert_eq!(request.list.values.last(), Some(&SqlValue::BigInt(Some(4))));
}

#[test]
fn stored_graphs_belong_to_their_operation() {
    let graph = sample_graph();
    assert_eq!(stored_graph("op_1", "op_1", Some(graph.clone()), "graph").unwrap(), graph);
    let missing = stored_graph("op_1", "op_1", None, "graph").unwrap_err();
    assert!(missing.message().contains("operation 'op_1' has no compatibility graph payload"));
    assert!(stored_graph("op_1", "op_2", Some(graph), "graph").is_err());
    assert_eq!(zero_object_id(4), "0000");
    assert!(operation_has_legacy_view_id(&["op_id".to_string(), "view_id".to_string()]));
    let statements = persist_v2_graph(&sample_graph(), "0000", VIEW, "{}");
    assert!(statements[0].sql.starts_with("INSERT INTO operation (op_id"));
    assert!(statements
        .iter()
        .any(|query| query.sql.starts_with("INSERT INTO operation_parent")));
}

#[test]
fn classes_name_a_command_of_their_own() {
    for class in [
        MutationClass::ReadOnly,
        MutationClass::WorkingCopy,
        MutationClass::Repository,
        MutationClass::Ref,
        MutationClass::Index,
        MutationClass::External,
        MutationClass::InternalWorker,
    ] {
        assert_eq!(classify_command(middleware_command_name(class)), Ok(class));
    }
    assert_eq!(plan_dispatch(true, MutationClass::Ref), DispatchPlan::Recorded);
    assert_eq!(plan_dispatch(false, MutationClass::Ref), DispatchPlan::Direct);
    assert_eq!(plan_dispatch(true, MutationClass::ReadOnly), DispatchPlan::Direct);
    assert!(is_v2_schema(&["format_version".to_string()]));
    assert!(!is_v2_schema(&["view_id".to_string()]));
}

#[test]
fn metadata_and_limits_follow_their_arguments() {
    let meta = dispatch_metadata("wt-1", "commit", "text", "alice", None);
    assert_eq!(meta.scope_kind, "linked");
    assert_eq!(meta.worktree_id.as_deref(), Some("wt-1"));
    assert_eq!(dispatch_metadata("", "commit", "text", "alice", None).worktree_id, None);
    assert!(check_limit(0).is_err());
    assert!(check_limit(1).is_ok());
    let error = storage_error(OperationServiceError::Internal("odd".to_string()));
    assert!(matches!(error, OperationServiceError::Storage(_)));
}

fn oid(hex: &str) -> Oid {
    Oid::parse(hex).unwrap()
}

#[test]
fn refs_are_collected_in_order() {
    let branches = || {
        vec![
            LocalBranch { name: "topic".to_string(), commit: oid(VIEW) },
            LocalBranch { name: "main".to_string(), commit: oid(VIEW) },
        ]
    };
    let remotes = || {
        vec![
            RemoteRow {
                name: Some("main".to_string()),
                remote: Some("origin".to_string()),
                commit: Some(VIEW.to_string()),
            },
            RemoteRow { name: Some("gone".to_string()), remote: None, commit: None },
        ]
    };
    let names = |refs: bool, tracking: bool| -> Vec<String> {
        collect_refs(branches(), remotes(), refs, tracking)
            .into_iter()
            .map(|r| r.ref_name)
            .collect()
    };
    assert_eq!(names(true, false), ["main", "topic"]);
    assert_eq!(names(true, true).len(), 3);
    assert!(names(false, false).is_empty());
    let head = CurrentHead::Branch("main".to_string());
    let facet = capture_facet(head, collect_refs(branches(), remotes(), true, false));
    assert_eq!(repository_view("repo", oid(VIEW)).unwrap().roots(), vec![oid(VIEW)]);
    assert!(repository_view(" ", oid(VIEW)).is_err());
    let view = capture_view(oid(VIEW), facet);
    assert_eq!(view.snapshot.head_kind, "branch");
    assert_eq!(view.snapshot.head_target, "main");
    assert_eq!(view.snapshot.refs.len(), 2);
    assert!(view.snapshot.refs.iter().all(|r| r.view_id == VIEW));
}

#[test]
fn graphs_survive_the_operation_log() {
    let graph = sample_graph();
    let operation = persist_graph(&graph, None).unwrap();
    assert_eq!(operation.op_id, "op_1");
    assert_eq!(operation.post_view_oid.as_str(), VIEW);
    assert_eq!(operation.status, OperationStatusV2::Success);
    assert_eq!(operation.parent_op_ids, ["op_0"]);
    let facet = capture_facet(CurrentHead::Detached(oid(VIEW)), vec![]);
    let (view, refs) = decode_view(&operation, facet).unwrap();
    assert_eq!(view.view_id, VIEW);
    assert!(refs.is_empty());
    let loaded = load_graph(&operation, view, refs);
    assert_eq!(loaded.operation.op_id, graph.operation.op_id);
    assert_eq!(loaded.parents, graph.parents);
    let mut odd = sample_graph();
    odd.view.view_id = "view_1".to_string();
    assert_eq!(
        persist_graph(&odd, None).unwrap_err().message(),
        OperationServiceError::Storage("invalid v2 view id 'view_1'".to_string()).message()
    );
    let mut future = capture_facet(CurrentHead::Branch("main".to_string()), vec![]);
    future.schema_version = 9;
    assert!(decode_view(&operation, future).is_err());
}

#[test]
fn only_successes_move_the_head() {
    let operation = persist_graph(&sample_graph(), None).unwrap();
    let heads = [OpHead { op_id: "op_0".to_string(), generation: 4 }];
    assert_eq!(
        head_after(&operation, &heads),
        Ok(Some(OpHead { op_id: "op_1".to_string(), generation: 5 }))
    );
    let last = [OpHead { op_id: "op_0".to_string(), generation: i64::MAX }];
    assert_eq!(head_after(&operation, &last), Err(MiddlewareError::GenerationsExhausted));
    let mut failed = operation;
    failed.status = OperationStatusV2::Failed;
    assert_eq!(head_after(&failed, &heads), Ok(None));
    let (row, _) = rows_for_operation(&failed).unwrap();
    let control = running_control(Some(row)).unwrap();
    assert_eq!((control.0.as_str(), control.1.as_str()), ("op_1", "commit"));
    assert_eq!(running_control(None), None);
}
