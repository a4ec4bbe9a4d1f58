//! Operations: facets, views, pointers, heads, the middleware and snapshots.

use libra_core::legacy_operation::OperationStatus;
use libra_core::oid::{HashKind, Oid};
use libra_core::operation::facet::{
    FacetCapture, FacetCaptureCtx, FacetDiff, FacetError, FacetName, FacetRegistry,
    FacetRestoreCtx, FacetWrite, RestorePolicy, StateFacet,
};
use libra_core::operation::facets::{FileStateFacet, IndexFacet, SequencerFacet, SparseFacet};
use libra_core::operation::middleware::{
    classify_command, ClassificationError, MiddlewareError, MutationClass, OperationMiddleware,
    OperationRun, RunAction, RunEvent, RunPhase, RunStart,
};
use libra_core::operation::runtime::{log_item_from_v2, operation_record_from_v2};
use libra_core::operation::snapshot::{
    capture_manifest, captured_file, check_restored_length, ensure_safe_relative,
    has_observable_state, restore_source, DirEntry, FileEntry, FilePath, SnapshotError, WorkspaceSnapshotter,
};
use libra_core::operation::store::{
    cas_update_op_heads, generation_after, journal_from_model, journal_row_in_phase,
    operation_from_model, reserved_journal_row, rows_for_operation, JournalPhase, OpHead,
    OperationKind, OperationMetaV2, OperationStatusV2, OperationV2, StoreError,
};
use libra_core::operation::view::{
    CapturePolicy, Completeness, HeadState, OidMap, PolicyMap, RepoViewV2, ViewCodecError,
    WorkspaceSnapshotV2,
};
use libra_core::operation::working_copy::{
    PointerError, PointerFile, Staleness, WorkspaceStatePointer,
};

fn oid(byte: u8) -> Oid {
    Oid::parse(&format!("{byte:02x}").repeat(20)).expect("sha1 oid")
}

struct TestFacet {
    name: &'static str,
    policy: RestorePolicy,
    payload: Option<Oid>,
}

impl StateFacet for TestFacet {
    fn name(&self) -> FacetName {
        self.name.to_string()
    }
    fn schema_version(&self) -> u32 {
        1
    }
    fn restore_policy(&self) -> RestorePolicy {
        self.policy
    }
    fn capture(&self, _ctx: &FacetCaptureCtx) -> Result<FacetCapture, FacetError> {
        Ok(FacetCapture {
            facet: self.name(),
            schema_version: 1,
            payload_oid: self.payload.clone(),
            meta: "{}".to_string(),
        })
    }
    fn validate(&self, capture: &FacetCapture) -> Result<(), FacetError> {
        if capture.facet != self.name {
            return Err(FacetError::InvalidCapture(
                capture.facet.clone(),
                "wrong facet".to_string(),
            ));
        }
        Ok(())
    }
    fn restore(
        &self,
        _capture: &FacetCapture,
        _ctx: &mut FacetRestoreCtx,
    ) -> Result<(), FacetError> {
        Ok(())
    }
    fn diff(&self, from: &FacetCapture, to: &FacetCapture) -> Result<FacetDiff, FacetError> {
        Ok(FacetDiff {
            facet: self.name(),
            from: from.payload_oid.clone(),
            to: to.payload_oid.clone(),
        })
    }
    fn roots(&self, capture: &FacetCapture) -> Vec<Oid> {
        capture.payload_oid.clone().into_iter().collect()
    }
}

#[test]
fn unknown_facet_is_not_fully_restorable() {
    let registry: FacetRegistry<TestFacet> = FacetRegistry::default();
    let capture = FacetCapture {
        facet: "unknown".to_string(),
        schema_version: 1,
        payload_oid: Some(oid(1)),
        meta: "{}".to_string(),
    };
    assert!(!registry.fully_restorable(&[capture]));
}

#[test]
fn registered_facets_capture_and_validate() {
    let mut registry = FacetRegistry::default();
    registry
        .register(TestFacet {
            name: "index",
            policy: RestorePolicy::AutoRestore,
            payload: Some(oid(2)),
        })
        .expect("register facet");
    let captures = registry
        .capture_all(&FacetCaptureCtx::default())
        .expect("capture");
    assert!(registry.fully_restorable(&captures));
    assert_eq!(registry.roots(&captures).unwrap(), vec![oid(2)]);
}

#[test]
fn never_restore_facet_is_not_fully_restorable() {
    let mut registry = FacetRegistry::default();
    registry
        .register(TestFacet {
            name: "runtime",
            policy: RestorePolicy::NeverRestore,
            payload: Some(oid(3)),
        })
        .expect("register facet");
    let captures = registry
        .capture_all(&FacetCaptureCtx::default())
        .expect("capture");
    assert!(!registry.fully_restorable(&captures));
}

#[test]
fn a_facet_registers_once_and_names_are_sorted() {
    let mut registry = FacetRegistry::default();
    for name in ["sparse", "index", "sequencer"] {
        registry
            .register(TestFacet { name, policy: RestorePolicy::Rebuild, payload: None })
            .expect("register facet");
    }
    assert_eq!(
        registry.register(TestFacet {
            name: "index",
            policy: RestorePolicy::AutoRestore,
            payload: None,
        }),
        Err(FacetError::Duplicate("index".to_string()))
    );
    assert_eq!(registry.names(), vec!["index", "sequencer", "sparse"]);
    assert!(registry.contains("sparse"));
    assert!(!registry.contains("Sparse"));
}

#[test]
fn captures_of_unknown_facets_and_versions_are_refused() {
    let mut registry = FacetRegistry::default();
    registry
        .register(TestFacet {
            name: "index",
            policy: RestorePolicy::AutoRestore,
            payload: Some(oid(2)),
        })
        .unwrap();
    let capture = |facet: &str, schema_version: u32| FacetCapture {
        facet: facet.to_string(),
        schema_version,
        payload_oid: None,
        meta: "{}".to_string(),
    };
    assert!(registry.validate_all(&[capture("index", 1)]).is_ok());
    assert_eq!(
        registry.validate_all(&[capture("later", 1)]),
        Err(FacetError::Unregistered("later".to_string()))
    );
    assert!(matches!(
        registry.validate_all(&[capture("index", 2)]),
        Err(FacetError::InvalidCapture(..))
    ));
    assert!(registry.roots(&[capture("later", 1)]).is_err());
    let mut files = FacetRegistry::default();
    let index = IndexFacet::index(Ok(Vec::new()), "{}".to_string()).into_facet();
    files.register(index.clone()).unwrap();
    assert_eq!(files.validate_all(&[capture("index", 1)]), index.validate(&capture("index", 1)));
}

/// A facet that takes no capture for its own.
#[derive(Debug)]
struct Picky;

impl StateFacet for Picky {
    fn name(&self) -> FacetName {
        "picky".to_string()
    }
    fn schema_version(&self) -> u32 {
        1
    }
    fn restore_policy(&self) -> RestorePolicy {
        RestorePolicy::Rebuild
    }
    fn capture(&self, _ctx: &FacetCaptureCtx) -> Result<FacetCapture, FacetError> {
        Err(FacetError::Operation(self.name(), "never".to_string()))
    }
    fn validate(&self, _capture: &FacetCapture) -> Result<(), FacetError> {
        Err(FacetError::InvalidCapture(self.name(), "not mine".to_string()))
    }
    fn restore(&self, _: &FacetCapture, _: &mut FacetRestoreCtx) -> Result<(), FacetError> {
        Ok(())
    }
    fn diff(&self, _: &FacetCapture, _: &FacetCapture) -> Result<FacetDiff, FacetError> {
        Err(FacetError::Unregistered(self.name()))
    }
    fn roots(&self, _capture: &FacetCapture) -> Vec<Oid> {
        Vec::new()
    }
}

#[test]
fn a_refusing_facet_speaks_for_itself() {
    let mut registry = FacetRegistry::default();
    registry.register(Picky).unwrap();
    let capture = FacetCapture {
        facet: "picky".to_string(),
        schema_version: 1,
        payload_oid: None,
        meta: "{}".to_string(),
    };
    let refused = FacetError::InvalidCapture("picky".to_string(), "not mine".to_string());
    assert_eq!(registry.validate_all(std::slice::from_ref(&capture)), Err(refused));
    assert!(registry.roots(&[capture]).is_err());
    assert_eq!(
        registry.capture_all(&FacetCaptureCtx::default()),
        Err(FacetError::Operation("picky".to_string(), "never".to_string()))
    );
    assert!(format!("{registry:?}").contains("Picky"));
}

#[test]
fn restoring_a_file_facet_asks_for_a_write() {
    let sparse = SparseFacet::sparse(Ok(b"a\n".to_vec()), "{}".to_string()).into_facet();
    let mut capture = sparse.capture_named(oid(7)).unwrap();
    let mut ctx = FacetRestoreCtx::default();
    sparse.restore(&capture, &mut ctx).unwrap();
    assert_eq!(ctx.writes, vec![FacetWrite { facet: "sparse".to_string(), object: oid(7) }]);
    capture.payload_oid = None;
    assert!(sparse.restore(&capture, &mut ctx).is_err());
    assert_eq!(ctx.writes.len(), 1);
}

#[test]
fn file_facets_capture_the_blob_of_their_content() {
    let index = IndexFacet::index(Ok(b"line 1\n".to_vec()), "{}".to_string()).into_facet();
    let capture = index.capture_file().expect("capture");
    assert_eq!(capture.facet, "index");
    assert_eq!(
        capture.payload_oid.as_ref().map(|id| id.as_str()),
        Some("89b24ecec50c07aef0d6640a2a9f6dc354a33125")
    );
    assert_eq!(index.capture_named(oid(7)).unwrap().payload_oid, Some(oid(7)));
    assert_eq!(index.payload(&capture), Ok(oid_of("89b24ecec50c07aef0d6640a2a9f6dc354a33125")));
    assert!(index.validate(&capture).is_ok());
    let sequencer = SequencerFacet::sequencer(Err("gone".to_string()), "{}".to_string());
    let sequencer: FileStateFacet = sequencer.into_facet();
    assert!(matches!(sequencer.capture_file(), Err(FacetError::Operation(..))));
    assert!(matches!(sequencer.validate(&capture), Err(FacetError::InvalidCapture(..))));
    let sparse = SparseFacet::sparse(Ok(Vec::new()), "{}".to_string()).into_facet();
    assert_eq!(
        sparse.capture_file().unwrap().payload_oid,
        Some(oid_of("e69de29bb2d1d6434b8b29ae775ad8c2e48c5391"))
    );
}

#[test]
fn the_facets_of_files_are_facets() {
    fn kinds<F: StateFacet>(facet: F) -> (String, u32, RestorePolicy) {
        let capture = facet.capture(&FacetCaptureCtx::default()).expect("capture");
        assert!(facet.validate(&capture).is_ok());
        assert_eq!(facet.roots(&capture), vec![oid_of("e69de29bb2d1d6434b8b29ae775ad8c2e48c5391")]);
        let diff = facet.diff(&capture, &capture).expect("diff");
        assert_eq!((diff.from, diff.to), (capture.payload_oid.clone(), capture.payload_oid.clone()));
        let mut ctx = FacetRestoreCtx::default();
        facet.restore(&capture, &mut ctx).expect("restore");
        assert_eq!(ctx.writes[0].facet, facet.name());
        let mut registry = FacetRegistry::default();
        let kind = (facet.name(), facet.schema_version(), facet.restore_policy());
        registry.register(facet).expect("registered");
        assert!(registry.validate_all(&[capture]).is_ok());
        kind
    }
    let meta = || "{}".to_string();
    assert_eq!(
        kinds(IndexFacet::index(Ok(Vec::new()), meta())),
        ("index".to_string(), 1, RestorePolicy::AutoRestore)
    );
    assert_eq!(
        kinds(SequencerFacet::sequencer(Ok(Vec::new()), meta())),
        ("sequencer".to_string(), 1, RestorePolicy::AutoRestore)
    );
    assert_eq!(
        kinds(SparseFacet::sparse(Ok(Vec::new()), meta())),
        ("sparse".to_string(), 1, RestorePolicy::Rebuild)
    );
}

fn oid_of(hex: &str) -> Oid {
    Oid::parse(hex).expect("oid")
}

#[test]
fn object_ids_are_read_back_as_written() {
    let hex = "89b24ecec50c07aef0d6640a2a9f6dc354a33125";
    assert_eq!(oid_of(hex).as_str(), hex);
    assert!(Oid::parse("89b24e").is_none());
    assert!(Oid::parse(&"zz".repeat(20)).is_none());
    assert_eq!(Oid::of_blob(b"line 1\n").as_str(), hex);
    assert_eq!(Oid::of_blob_by(HashKind::Sha1, b"line 1\n").as_str(), hex);
    assert_eq!(
        Oid::of_blob_by(HashKind::Sha256, b"line 1\n").as_str(),
        "f24d0b7ca998f683c50bfef272f546f894c62e6f0e114b4c0f0fdb53c3f0795f"
    );
    assert_eq!(Oid::of_blob_by(HashKind::Blake3, b"line 1\n").as_str().len(), 64);
}

#[test]
fn all_seven_classes_are_explicit() {
    let names = [
        "status",
        "add",
        "commit",
        "branch",
        "index",
        "agent",
        "internal-worker",
    ];
    let classes = names
        .iter()
        .map(|name| classify_command(name).expect("class"))
        .collect::<Vec<_>>();
    assert_eq!(
        classes,
        vec![
            MutationClass::ReadOnly,
            MutationClass::WorkingCopy,
            MutationClass::Repository,
            MutationClass::Ref,
            MutationClass::Index,
            MutationClass::External,
            MutationClass::InternalWorker,
        ]
    );
}

#[test]
fn unknown_commands_fail_closed() {
    assert!(matches!(
        classify_command("future-command"),
        Err(ClassificationError::UnknownCommand(_))
    ));
}

#[test]
fn command_names_are_trimmed_and_lowered() {
    assert_eq!(classify_command("  Cherry-Pick\n"), Ok(MutationClass::Repository));
    assert_eq!(
        classify_command(" Bisect").unwrap_err(),
        ClassificationError::UnknownCommand(" Bisect".to_string())
    );
}

fn start(has_pointer: bool, external: Option<Oid>) -> OperationRun {
    let middleware = OperationMiddleware::new("repo", "main", has_pointer);
    match middleware.run_with_operation("commit", "op", oid(1), oid(2), external) {
        RunStart::Record(run) => run,
        other => panic!("expected a recorded run, got {other:?}"),
    }
}

#[test]
fn failed_action_keeps_failed_operation() {
    let mut run = start(false, None);
    let mut status = None;
    let mut event = RunEvent::Heads(Vec::new());
    let error = loop {
        let action = run.step(event);
        event = RunEvent::Done;
        match action {
            RunAction::WriteOperation(operation) => status = Some(operation.status),
            RunAction::UpdateStatus { op_id, status: next, .. } => {
                assert_eq!(op_id, "op");
                status = Some(next);
            }
            RunAction::Act => event = RunEvent::ActionFailed("boom".to_string()),
            RunAction::CasHeads { .. } | RunAction::Return => panic!("nothing is published"),
            RunAction::Fail(error) => break error,
            _ => {}
        }
    };
    assert!(matches!(error, MiddlewareError::Action(_)));
    assert_eq!(status, Some(OperationStatusV2::Failed));
}

#[test]
fn successful_run_publishes_behind_the_heads_it_saw() {
    let mut run = start(true, None);
    let heads = vec![
        OpHead { op_id: "a".to_string(), generation: 4 },
        OpHead { op_id: "b".to_string(), generation: 7 },
    ];
    match run.step(RunEvent::Heads(heads.clone())) {
        RunAction::WriteOperation(operation) => {
            assert_eq!(operation.parent_op_ids, vec!["a", "b"]);
            assert_eq!(operation.status, OperationStatusV2::Running);
            assert_eq!(operation.metadata.scope_kind, "main");
            assert_eq!(operation.metadata.command_name.as_deref(), Some("commit"));
        }
        other => panic!("{other:?}"),
    }
    match run.step(RunEvent::Done) {
        RunAction::ReserveJournal { journal_id, owner, .. } => {
            assert_eq!(journal_id, "journal-op");
            assert_eq!(owner, "middleware");
        }
        other => panic!("{other:?}"),
    }
    let mut phases = Vec::new();
    for _ in 0..2 {
        match run.step(RunEvent::Done) {
            RunAction::RecordPhase { phase, target_view_oid, .. } => {
                assert_eq!(target_view_oid, None);
                phases.push(phase);
            }
            other => panic!("{other:?}"),
        }
    }
    assert_eq!(phases, vec![JournalPhase::PreView, JournalPhase::Mutation]);
    assert_eq!(run.step(RunEvent::Done), RunAction::Act);
    assert!(matches!(
        run.step(RunEvent::Done),
        RunAction::RecordPhase { phase: JournalPhase::PostView, .. }
    ));
    assert!(matches!(
        run.step(RunEvent::Done),
        RunAction::UpdateStatus { status: OperationStatusV2::Success, .. }
    ));
    let published = OpHead { op_id: "op".to_string(), generation: 8 };
    assert_eq!(
        run.step(RunEvent::Done),
        RunAction::CasHeads { expected: heads, proposed: published.clone() }
    );
    assert!(matches!(
        run.step(RunEvent::Heads(vec![published])),
        RunAction::RecordPhase { phase: JournalPhase::Publish, .. }
    ));
    assert_eq!(
        run.step(RunEvent::Done),
        RunAction::SavePointer { op_id: "op".to_string(), view_oid: oid(2), generation: 8 }
    );
    assert_eq!(run.step(RunEvent::Done), RunAction::Return);
}

#[test]
fn external_snapshot_is_published_before_the_command() {
    let mut run = start(false, Some(oid(9)));
    match run.step(RunEvent::Heads(Vec::new())) {
        RunAction::WriteOperation(operation) => {
            assert_eq!(operation.op_id, "op-external-snapshot");
            assert_eq!(operation.kind, OperationKind::ExternalSnapshot);
            assert_eq!(operation.pre_view_oid, oid(1));
            assert_eq!(operation.post_view_oid, oid(9));
        }
        other => panic!("{other:?}"),
    }
    let external = OpHead { op_id: "op-external-snapshot".to_string(), generation: 1 };
    assert_eq!(
        run.step(RunEvent::Done),
        RunAction::CasHeads { expected: Vec::new(), proposed: external.clone() }
    );
    match run.step(RunEvent::Heads(vec![external])) {
        RunAction::WriteOperation(operation) => {
            assert_eq!(operation.op_id, "op");
            assert_eq!(operation.parent_op_ids, vec!["op-external-snapshot"]);
            assert_eq!(operation.pre_view_oid, oid(9));
        }
        other => panic!("{other:?}"),
    }
}

#[test]
fn a_failed_step_ends_the_run() {
    let mut run = start(false, None);
    match run.step(RunEvent::StepFailed(StoreError::Database("it is locked".to_string()))) {
        RunAction::Fail(error) => {
            assert_eq!(error.message(), "operation database error: it is locked")
        }
        other => panic!("{other:?}"),
    }
    let mut run = start(false, None);
    let conflict = StoreError::CasConflict { current: vec![] };
    assert_eq!(
        run.step(RunEvent::StepFailed(conflict)),
        RunAction::Fail(MiddlewareError::Store(StoreError::CasConflict { current: vec![] }))
    );
    let mut run = start(false, None);
    assert_eq!(
        run.step(RunEvent::PointerFailed(PointerError::EmptyOperationId)),
        RunAction::Fail(MiddlewareError::UnexpectedEvent)
    );
    let mut run = start(true, None);
    run.phase = RunPhase::PointerSaved;
    assert_eq!(
        run.step(RunEvent::PointerFailed(PointerError::Io("full".to_string()))),
        RunAction::Fail(MiddlewareError::Pointer(PointerError::Io("full".to_string())))
    );
}

#[test]
fn runs_are_bypassed_or_refused_by_class_and_id() {
    let middleware = OperationMiddleware::new("repo", "wt-1", false);
    assert_eq!(middleware.scope_kind, "linked");
    let run = |command: &str, op_id: &str| {
        middleware.run_with_operation(command, op_id, oid(1), oid(2), None)
    };
    assert_eq!(run("status", ""), RunStart::Bypass);
    assert_eq!(run("internal-worker", "op"), RunStart::Bypass);
    assert_eq!(run("commit", " "), RunStart::Refuse(MiddlewareError::EmptyOperationId));
    assert!(matches!(
        run("future-command", "op"),
        RunStart::Refuse(MiddlewareError::Classification(_))
    ));
    assert_eq!(
        MiddlewareError::EmptyOperationId.message(),
        "operation middleware requires a non-empty operation id"
    );
    assert_eq!(
        MiddlewareError::Action("boom".to_string()).message(),
        "operation action failed: boom"
    );
}

fn operation() -> OperationV2 {
    OperationV2 {
        op_id: "op-1".to_string(),
        repo_id: "repo-1".to_string(),
        parent_op_ids: vec!["op-0".to_string(), "op-parent".to_string()],
        pre_view_oid: oid(1),
        post_view_oid: oid(2),
        kind: OperationKind::Command,
        status: OperationStatusV2::Success,
        metadata: OperationMetaV2 {
            command_name: Some("commit".to_string()),
            scope_kind: "main".to_string(),
            ..OperationMetaV2::default()
        },
        restores_op_id: None,
        reverts_op_id: None,
        predecessor_map_oid: None,
        start_ts: 1,
        end_ts: Some(2),
    }
}

#[test]
fn an_operation_is_listed_as_its_record_says() {
    let record = operation_record_from_v2(&operation());
    assert_eq!(record.view_id, oid(2).hex);
    assert_eq!(record.scope_provenance, "declared");
    assert!(record.restorable);
    let item = log_item_from_v2(&operation());
    assert_eq!(item.op_id, "op-1");
    assert_eq!(item.command_name, "commit");
    assert_eq!(item.description, "");
    assert_eq!(item.end_ts, Some(2));
    assert_eq!(item.status, OperationStatus::Succeeded);
    let mut unnamed = operation();
    unnamed.metadata.command_name = None;
    assert_eq!(log_item_from_v2(&unnamed).command_name, "unknown");
}

#[test]
fn operation_and_journal_roundtrip() {
    let (row, parents) = rows_for_operation(&operation()).expect("write");
    let parents = parents.into_iter().map(|parent| parent.parent_op_id).collect();
    let loaded = operation_from_model(row, parents).expect("load");
    assert_eq!(loaded, operation());
    let reserved = reserved_journal_row("journal-1", "op-1", "worker", 3);
    assert_eq!(reserved.phase, "reserved");
    let row = journal_row_in_phase(
        reserved,
        JournalPhase::PreView,
        &Some(oid(1)),
        &Some(oid(2)),
        None,
        4,
    );
    let entry = journal_from_model(row).expect("phase");
    assert_eq!(entry.phase, JournalPhase::PreView);
    assert_eq!(entry.pre_view_oid, Some(oid(1)));
    assert_eq!(entry.target_view_oid, Some(oid(2)));
    assert_eq!(entry.owner, "worker");
    assert_eq!(entry.updated_at, 4);
}

#[test]
fn parents_keep_their_ordinals() {
    let (row, parents) = rows_for_operation(&operation()).unwrap();
    assert_eq!(row.format_version, 2);
    assert_eq!(row.kind, "command");
    assert_eq!(row.status, "success");
    let ordinals: Vec<(i32, &str)> =
        parents.iter().map(|p| (p.ordinal, p.parent_op_id.as_str())).collect();
    assert_eq!(ordinals, vec![(0, "op-0"), (1, "op-parent")]);
}

#[test]
fn corrupt_rows_are_refused() {
    let row = || rows_for_operation(&operation()).unwrap().0;
    let mut kind = row();
    kind.kind = "frobnicate".to_string();
    assert!(matches!(operation_from_model(kind, vec![]), Err(StoreError::Corrupt(_))));
    let mut status = row();
    status.status = "done".to_string();
    assert!(matches!(operation_from_model(status, vec![]), Err(StoreError::Corrupt(_))));
    let mut view = row();
    view.pre_view_oid = "bad".to_string();
    assert!(matches!(operation_from_model(view, vec![]), Err(StoreError::InvalidObjectHash(_))));
    let mut unnamed = operation();
    unnamed.op_id = "  ".to_string();
    assert!(matches!(rows_for_operation(&unnamed), Err(StoreError::InvalidArgument(_))));
}

#[test]
fn names_of_kinds_and_statuses_parse_back() {
    for kind in [
        OperationKind::Command,
        OperationKind::ExternalSnapshot,
        OperationKind::Undo,
        OperationKind::Redo,
        OperationKind::Restore,
        OperationKind::Revert,
        OperationKind::Reconcile,
    ] {
        assert_eq!(OperationKind::parse(kind.as_str()), Ok(kind));
    }
    assert_eq!(OperationKind::ExternalSnapshot.as_str(), "external_snapshot");
    for status in [
        OperationStatusV2::Running,
        OperationStatusV2::Success,
        OperationStatusV2::Failed,
        OperationStatusV2::Partial,
        OperationStatusV2::Aborted,
    ] {
        assert_eq!(OperationStatusV2::parse(status.as_str()), Ok(status));
    }
    assert!(OperationKind::parse("Command").is_err());
}

#[test]
fn head_cas_conflict_retains_both_branches() {
    let first = [OpHead { op_id: "op-a".to_string(), generation: 1 }];
    let published = cas_update_op_heads(&[], &[], &first);
    assert!(published.replace);
    assert_eq!(published.insert, first.to_vec());
    assert_eq!(published.outcome, Ok(first.to_vec()));
    let second = [OpHead { op_id: "op-b".to_string(), generation: 2 }];
    let stale = cas_update_op_heads(&first, &[], &second);
    assert!(matches!(stale.outcome, Err(StoreError::CasConflict { .. })));
    assert!(!stale.replace);
    let mut heads = first.to_vec();
    heads.extend(stale.insert);
    assert_eq!(heads, vec![first[0].clone(), second[0].clone()]);
}

#[test]
fn expected_heads_match_in_their_stored_order() {
    let a = OpHead { op_id: "a".to_string(), generation: 1 };
    let b = OpHead { op_id: "b".to_string(), generation: 1 };
    let next = OpHead { op_id: "c".to_string(), generation: 2 };
    let current = [a.clone(), b.clone()];
    let update = cas_update_op_heads(&current, &current, std::slice::from_ref(&next));
    assert_eq!(update.outcome, Ok(vec![next.clone()]));
    let swapped = cas_update_op_heads(&current, &[b.clone(), a.clone()], &[next.clone(), b.clone()]);
    assert_eq!(
        swapped.outcome,
        Err(StoreError::CasConflict { current: vec![a, b, next] })
    );
}

#[test]
fn generations_grow_until_they_are_exhausted() {
    let head = |generation: i64| OpHead { op_id: "op".to_string(), generation };
    assert_eq!(generation_after(&[]), Some(1));
    assert_eq!(generation_after(&[head(-5)]), Some(-4));
    assert_eq!(generation_after(&[head(3), head(9), head(2)]), Some(10));
    assert_eq!(generation_after(&[head(i64::MAX)]), None);
}

fn repo_view() -> RepoViewV2 {
    let mut workspaces = OidMap::new();
    workspaces.insert("main".to_string(), oid(2));
    let mut extensions = OidMap::new();
    extensions.insert("extension".to_string(), oid(4));
    RepoViewV2::new("repo".to_string(), oid(1), workspaces, vec![oid(3)], extensions)
        .expect("valid view")
}

#[test]
fn repo_view_roundtrips_canonically_and_enumerates_closure() {
    let view = repo_view();
    assert!(view.validate_schema().is_ok());
    assert_eq!(view.roots().len(), 4);
    assert!(view.validate_closure(|candidate| candidate != &oid(4)).is_err());
}

#[test]
fn a_closed_view_names_its_first_missing_object() {
    let view = repo_view();
    assert!(view.validate_closure(|_| true).is_ok());
    assert_eq!(
        view.validate_closure(|_| false),
        Err(ViewCodecError::MissingObject(oid(1)))
    );
}

#[test]
fn unknown_schema_versions_fail_closed() {
    let mut view = repo_view();
    view.schema_version = 99;
    let error = view.validate_schema().expect_err("unknown schema must fail");
    assert!(matches!(error, ViewCodecError::UnsupportedSchemaVersion { .. }));
}

#[test]
fn views_need_their_ids() {
    let view = RepoViewV2::new("  ".to_string(), oid(1), OidMap::new(), vec![], OidMap::new());
    assert_eq!(view, Err(ViewCodecError::EmptyRepoId));
    let snapshot = WorkspaceSnapshotV2::new(
        String::new(),
        HeadState::Unborn { ref_name: "main".to_string() },
        oid(1),
        oid(2),
        oid(3),
        oid(4),
    );
    assert_eq!(snapshot, Err(ViewCodecError::EmptyWorkspaceId));
}

#[test]
fn maps_hold_one_object_per_name_in_order() {
    let mut map = OidMap::new();
    map.insert("b".to_string(), oid(1));
    map.insert("a".to_string(), oid(2));
    map.insert("b".to_string(), oid(3));
    assert_eq!(map.values(), vec![oid(2), oid(3)]);
}

#[test]
fn workspace_snapshot_includes_restore_policy_and_roots() {
    let mut snapshot = WorkspaceSnapshotV2::new(
        "main".to_string(),
        HeadState::Detached { oid: oid(9) },
        oid(1),
        oid(2),
        oid(3),
        oid(4),
    )
    .expect("valid snapshot");
    snapshot.facet_restore_policies.insert("index".to_string(), RestorePolicy::AutoRestore);
    snapshot.sparse_facet_oid = Some(oid(5));
    assert_eq!(snapshot.roots().len(), 6);
    assert!(snapshot.validate_schema().is_ok());
}

#[test]
fn a_facet_has_one_restore_policy() {
    let mut policies = PolicyMap::new();
    policies.insert("sparse".to_string(), RestorePolicy::Rebuild);
    policies.insert("index".to_string(), RestorePolicy::NeverRestore);
    policies.insert("index".to_string(), RestorePolicy::AutoRestore);
    let names: Vec<&str> = policies.entries.iter().map(|entry| entry.facet.as_str()).collect();
    assert_eq!(names, vec!["index", "sparse"]);
    assert_eq!(policies.entries[0].policy, RestorePolicy::AutoRestore);
}

#[test]
fn pointer_files_are_read_strictly() {
    let pointer = WorkspaceStatePointer::new("op-1".to_string(), oid(1), 3).expect("pointer");
    let file = pointer.to_file().expect("save");
    assert_eq!(file.schema_version, 2);
    assert_eq!(WorkspaceStatePointer::from_file(file), Ok(pointer));
    let file = |schema_version: u32, op: &str, hex: &str| PointerFile {
        schema_version,
        last_op_id: op.to_string(),
        last_snapshot_oid: hex.to_string(),
        generation: 3,
    };
    let hex = "01".repeat(20);
    assert_eq!(
        WorkspaceStatePointer::from_file(file(3, "op-1", &hex)),
        Err(PointerError::UnsupportedSchema(3))
    );
    assert_eq!(
        WorkspaceStatePointer::from_file(file(2, " ", &hex)),
        Err(PointerError::EmptyOperationId)
    );
    assert!(matches!(
        WorkspaceStatePointer::from_file(file(2, "op-1", "bad")),
        Err(PointerError::InvalidSnapshotOid(_))
    ));
}

#[test]
fn stale_and_sibling_are_distinct() {
    let pointer = WorkspaceStatePointer::new("base".to_string(), oid(1), 2).expect("pointer");
    let stale = [OpHead { op_id: "tip".to_string(), generation: 4 }];
    assert_eq!(
        pointer.staleness(&stale, |from, to| from == "base" && to == "tip"),
        Staleness::Stale
    );
    let sibling = [OpHead { op_id: "other".to_string(), generation: 2 }];
    assert_eq!(pointer.staleness(&sibling, |_, _| false), Staleness::Sibling);
    let fresh = [OpHead { op_id: "base".to_string(), generation: 2 }];
    assert_eq!(pointer.staleness(&fresh, |_, _| false), Staleness::Fresh);
}

#[test]
fn an_equal_operation_id_is_always_fresh() {
    let pointer = WorkspaceStatePointer::new("base".to_string(), oid(1), 2).expect("pointer");
    for generation in [1, 2, 3] {
        let heads = [
            OpHead { op_id: "other".to_string(), generation: 9 },
            OpHead { op_id: "base".to_string(), generation },
        ];
        assert_eq!(pointer.staleness(&heads, |_, _| true), Staleness::Fresh);
    }
    let behind = [OpHead { op_id: "tip".to_string(), generation: 1 }];
    assert_eq!(pointer.staleness(&behind, |_, _| true), Staleness::Sibling);
}

fn entry(name: &str, is_dir: bool) -> DirEntry {
    DirEntry { name: name.as_bytes().to_vec(), is_dir, is_file: !is_dir, is_symlink: false }
}

fn path(text: &str) -> FilePath {
    FilePath { bytes: text.as_bytes().to_vec() }
}

#[test]
fn empty_worktree_does_not_publish() {
    let snapshotter = WorkspaceSnapshotter::new();
    let mut scan = snapshotter.scan();
    let (dir, _) = scan.next_directory().expect("root");
    assert!(dir.bytes.is_empty());
    scan.take_listing(&dir.bytes, &[], false).expect("listing");
    assert_eq!(scan.next_directory(), None);
    let (files, partial) = scan.into_files();
    assert!(files.is_empty());
    assert!(!partial);
    assert!(!has_observable_state(0, true, !files.is_empty()));
}

#[test]
fn scans_walk_directories_and_skip_the_stores() {
    let mut scan = WorkspaceSnapshotter::new().scan();
    let (dir, remaining) = scan.next_directory().expect("root");
    assert_eq!(remaining, 10_000);
    let mut link = entry("link", false);
    link.is_symlink = true;
    let listing =
        [entry("tracked.txt", false), entry("nested", true), entry(".git", true), link, entry(".libra", false)];
    scan.take_listing(&dir.bytes, &listing, false).expect("listing");
    let (nested, _) = scan.next_directory().expect("nested");
    assert_eq!(nested, path("nested"));
    scan.take_listing(&nested.bytes, &[entry("untracked.txt", false)], false).expect("listing");
    assert_eq!(scan.next_directory(), None);
    assert_eq!(
        scan.into_files(),
        (vec![path("nested/untracked.txt"), path("tracked.txt")], false)
    );
}

#[test]
fn capacity_marks_partial() {
    let snapshotter = WorkspaceSnapshotter::with_limits(1, 2);
    let mut scan = snapshotter.scan();
    let (dir, _) = scan.next_directory().expect("root");
    scan.take_listing(&dir.bytes, &[entry("one", false)], false).expect("listing");
    let (files, mut partial) = scan.into_files();
    assert_eq!(files, vec![path("one")]);
    assert!(partial);
    let mut budget = snapshotter.budget();
    assert!(budget.open());
    assert!(!budget.charge(4));
    partial |= budget.exceeded;
    let manifest = capture_manifest(
        "ws".to_string(),
        HeadState::Unborn { ref_name: "main".to_string() },
        oid(1),
        oid(2),
        CapturePolicy::TrackedAndUntracked,
        1,
        partial,
    )
    .expect("snapshot");
    assert_eq!(manifest.completeness, Completeness::Partial);
}

#[test]
fn budgets_count_what_they_take() {
    let mut budget = WorkspaceSnapshotter::with_limits(2, 10).budget();
    assert!(budget.open() && budget.charge(6));
    assert!(budget.open() && budget.charge(4));
    assert!(!budget.exceeded);
    assert!(!budget.open());
    assert!(budget.exceeded);
    assert_eq!((budget.file_count, budget.byte_count), (2, 10));
    let mut budget = WorkspaceSnapshotter::with_limits(9, 10).budget();
    assert!(budget.open() && budget.charge(6));
    assert!(budget.open() && !budget.charge(5));
    assert!(budget.exceeded);
    assert_eq!((budget.file_count, budget.byte_count), (1, 6));
}

#[test]
fn a_full_capture_is_full_unless_it_fails_closed() {
    let capture = |policy: CapturePolicy| {
        capture_manifest(
            "ws".to_string(),
            HeadState::Symbolic { ref_name: "main".to_string() },
            oid(1),
            oid(2),
            policy,
            7,
            false,
        )
        .unwrap()
    };
    let full = capture(CapturePolicy::TrackedOnly);
    assert_eq!(full.completeness, Completeness::Full);
    assert_eq!(full.worktree_generation, 7);
    assert_eq!(full.untracked_manifest_oid, oid(2));
    assert_eq!(capture(CapturePolicy::FailClosed).completeness, Completeness::Partial);
}

#[test]
fn unsafe_paths_are_refused() {
    for unsafe_path in ["", "/etc/passwd", "../up", "a/../b", "./a"] {
        assert_eq!(
            ensure_safe_relative(unsafe_path.as_bytes()),
            Err(SnapshotError::UnsafePath(unsafe_path.to_string())),
            "{unsafe_path}"
        );
    }
    for safe in ["a", "a/b", "a//b", "a/./b", "..a/b"] {
        assert_eq!(ensure_safe_relative(safe.as_bytes()), Ok(()), "{safe}");
    }
}

#[test]
fn captured_files_restore() {
    let data = b"line 1\n";
    let id = Oid::of_blob(data);
    let entry = captured_file(path("nested/a.txt"), &id, data);
    assert_eq!(entry.len, 7);
    assert_eq!(restore_source(&entry), Ok(id));
    assert_eq!(check_restored_length(&entry, data), Ok(()));
    assert!(check_restored_length(&entry, b"line 1").is_err());
}

#[test]
fn restore_checks_path_object_and_length() {
    let entry = |path: &[u8], hex: &str| FileEntry {
        path: path.to_vec(),
        oid: hex.to_string(),
        len: 3,
    };
    let hex = "01".repeat(20);
    assert_eq!(restore_source(&entry(b"a", &hex)), Ok(oid(1)));
    assert_eq!(
        restore_source(&entry(b"../\xff", &hex)),
        Err(SnapshotError::UnsafePath("../\u{fffd}".to_string()))
    );
    assert_eq!(
        restore_source(&entry(b"a", "bad")).unwrap_err().message(),
        "snapshot manifest error: invalid file object id"
    );
    assert_eq!(check_restored_length(&entry(b"a", &hex), b"abc"), Ok(()));
    assert_eq!(
        check_restored_length(&entry(b"a", &hex), b"abcd"),
        Err(SnapshotError::Manifest("file length changed for a".to_string()))
    );
}
