//! The single operation boundary for mutating commands.
//!
//! [`OperationRun`] is a state machine. It says which step on the operation
//! store comes next, with everything the step needs, and takes the result as a
//! [`RunEvent`].

use vstd::prelude::*;
use vstd::string::*;

use super::store;
use super::store::{
    copy_heads, generation_after, joined, JournalPhase, OpHead, OperationKind, OperationMetaV2,
    OperationStatusV2, OperationV2, StoreError,
};
use super::working_copy::{PointerError, PointerErrorModel};
use crate::oid::Oid;
use crate::order;
use crate::text;
use crate::text::{blank, chars_of, lowered, same, text_of, trimmed};

verus! {

#[derive(Debug, Clone, Copy, PartialEq, Eq, Structural)]
pub enum MutationClass {
    ReadOnly,
    WorkingCopy,
    Repository,
    Ref,
    Index,
    External,
    InternalWorker,
}

impl MutationClass {
    /// Whether commands of the class are recorded as operations.
    pub open spec fn is_recorded(self) -> bool {
        !(self is ReadOnly || self is InternalWorker)
    }

    pub fn produces_operation(self) -> (r: bool)
        ensures
            r == self.is_recorded(),
    {
        match self {
            MutationClass::ReadOnly => false,
            MutationClass::InternalWorker => false,
            _ => true,
        }
    }
}

#[derive(Debug, PartialEq, Eq)]
pub enum ClassificationError {
    UnknownCommand(String),
}

impl ClassificationError {
    /// The sentence that reports the error.
    pub fn message(&self) -> (r: String)
        ensures
            (match self {
                ClassificationError::UnknownCommand(name) => r@
                    == "unknown command mutation class: "@ + name@,
            }),
    {
        match self {
            ClassificationError::UnknownCommand(name) => joined(
                "unknown command mutation class: ",
                name.as_str(),
            ),
        }
    }
}

/// The class of a command; `None` for a command that is not known.
pub open spec fn class_of(command: Seq<char>) -> Option<MutationClass> {
    let name = text::ascii_lower(text::trim(command));
    if name == "status"@ || name == "log"@ || name == "show"@ || name == "diff"@ || name == "op"@
        || name == "help"@ {
        Some(MutationClass::ReadOnly)
    } else if name == "add"@ || name == "checkout"@ || name == "switch"@ || name == "restore"@
        || name == "reset"@ || name == "clean"@ {
        Some(MutationClass::WorkingCopy)
    } else if name == "commit"@ || name == "merge"@ || name == "rebase"@ || name == "cherry-pick"@
        || name == "revert"@ || name == "am"@ {
        Some(MutationClass::Repository)
    } else if name == "branch"@ || name == "tag"@ || name == "fetch"@ || name == "push"@ || name
        == "update-ref"@ {
        Some(MutationClass::Ref)
    } else if name == "index"@ || name == "update-index"@ {
        Some(MutationClass::Index)
    } else if name == "agent"@ || name == "cloud"@ || name == "external"@ {
        Some(MutationClass::External)
    } else if name == "status-io-worker"@ || name == "internal-worker"@ {
        Some(MutationClass::InternalWorker)
    } else {
        None
    }
}

pub fn classify_command(command_name: &str) -> (r: Result<MutationClass, ClassificationError>)
    ensures
        (match r {
            Ok(class) => class_of(command_name@) == Some(class),
            Err(ClassificationError::UnknownCommand(name)) => class_of(command_name@) is None
                && name@ == command_name@,
        }),
{
    let held = chars_of(command_name);
    let low = lowered(trimmed(held.as_slice()));
    let t = text_of(low.as_slice());
    let name = t.as_str();
    if same(name, "status") || same(name, "log") || same(name, "show") || same(name, "diff")
        || same(name, "op") || same(name, "help") {
        Ok(MutationClass::ReadOnly)
    } else if same(name, "add") || same(name, "checkout") || same(name, "switch") || same(
        name,
        "restore",
    ) || same(name, "reset") || same(name, "clean") {
        Ok(MutationClass::WorkingCopy)
    } else if same(name, "commit") || same(name, "merge") || same(name, "rebase") || same(
        name,
        "cherry-pick",
    ) || same(name, "revert") || same(name, "am") {
        Ok(MutationClass::Repository)
    } else if same(name, "branch") || same(name, "tag") || same(name, "fetch") || same(
        name,
        "push",
    ) || same(name, "update-ref") {
        Ok(MutationClass::Ref)
    } else if same(name, "index") || same(name, "update-index") {
        Ok(MutationClass::Index)
    } else if same(name, "agent") || same(name, "cloud") || same(name, "external") {
        Ok(MutationClass::External)
    } else if same(name, "status-io-worker") || same(name, "internal-worker") {
        Ok(MutationClass::InternalWorker)
    } else {
        Err(ClassificationError::UnknownCommand(command_name.to_owned()))
    }
}

/// What the operations of a run have in common.
#[derive(Debug, PartialEq, Eq)]
pub struct OperationMiddleware {
    pub repo_id: String,
    pub scope_key: String,
    pub scope_kind: String,
    /// Whether the pointer of a workspace is updated behind a publish.
    pub has_pointer: bool,
}

/// The kind of a scope: the main one has no key, or `main` as its key.
pub open spec fn scope_kind_of(scope_key: Seq<char>) -> Seq<char> {
    if text::is_blank(scope_key) || scope_key == "main"@ {
        "main"@
    } else {
        "linked"@
    }
}

impl OperationMiddleware {
    pub fn new(repo_id: &str, scope_key: &str, has_pointer: bool) -> (r: Self)
        ensures
            r.repo_id@ == repo_id@,
            r.scope_key@ == scope_key@,
            r.scope_kind@ == scope_kind_of(scope_key@),
            r.has_pointer == has_pointer,
    {
        let scope_kind = if blank(scope_key) || same(scope_key, "main") {
            "main"
        } else {
            "linked"
        };
        OperationMiddleware {
            repo_id: repo_id.to_owned(),
            scope_key: scope_key.to_owned(),
            scope_kind: scope_kind.to_owned(),
            has_pointer,
        }
    }
}

/// Why a run ended without the result of its command.
#[derive(Debug, PartialEq, Eq)]
pub enum MiddlewareError {
    Classification(ClassificationError),
    /// A step on the store failed.
    Store(StoreError),
    /// The pointer could not be saved.
    Pointer(PointerError),
    /// The command failed.
    Action(String),
    EmptyOperationId,
    /// No generation is left behind the current heads.
    GenerationsExhausted,
    /// What came in is not what the last step leads to.
    UnexpectedEvent,
}

impl MiddlewareError {
    /// The sentence that reports the error.
    pub fn message(&self) -> (r: String)
        ensures
            (match self {
                MiddlewareError::Classification(ClassificationError::UnknownCommand(name)) => r@
                    == "unknown command mutation class: "@ + name@,
                MiddlewareError::Store(e) => r@ == e@.message(),
                MiddlewareError::Pointer(e) => r@ == e@.message(),
                MiddlewareError::Action(m) => r@ == "operation action failed: "@ + m@,
                MiddlewareError::EmptyOperationId => r@
                    == "operation middleware requires a non-empty operation id"@,
                MiddlewareError::GenerationsExhausted => r@
                    == "operation generations are exhausted"@,
                MiddlewareError::UnexpectedEvent => r@ == "unexpected operation event"@,
            }),
    {
        match self {
            MiddlewareError::Classification(e) => e.message(),
            MiddlewareError::Store(e) => e.message(),
            MiddlewareError::Pointer(e) => e.message(),
            MiddlewareError::Action(m) => joined("operation action failed: ", m.as_str()),
            MiddlewareError::EmptyOperationId => {
                "operation middleware requires a non-empty operation id".to_owned()
            },
            MiddlewareError::GenerationsExhausted => {
                "operation generations are exhausted".to_owned()
            },
            MiddlewareError::UnexpectedEvent => "unexpected operation event".to_owned(),
        }
    }
}

/// What a run waits for.
#[derive(Debug, Clone, Copy, PartialEq, Eq, Structural)]
pub enum RunPhase {
    /// The current heads.
    Heads,
    /// The external snapshot to be written.
    ExternalWritten,
    /// The external snapshot to be published.
    ExternalPublished,
    /// The operation to be written.
    Written,
    /// The journal entry to be reserved.
    Reserved,
    /// The state before to be noted.
    PreViewNoted,
    /// The beginning of the mutation to be noted.
    MutationNoted,
    /// The command.
    Acting,
    /// The state behind to be noted.
    PostViewNoted,
    /// The operation to be marked as a success.
    MarkedSuccess,
    /// The operation to be published.
    Published,
    /// The publish to be noted.
    PublishNoted,
    /// The pointer to be saved.
    PointerSaved,
    /// The operation to be marked as failed.
    MarkedFailed,
    /// Nothing.
    Over,
}

/// The next step of a run.
#[derive(Debug, PartialEq, Eq)]
pub enum RunAction {
    ReadHeads,
    WriteOperation(OperationV2),
    CasHeads { expected: Vec<OpHead>, proposed: OpHead },
    ReserveJournal { journal_id: String, op_id: String, owner: String, updated_at: i64 },
    RecordPhase {
        journal_id: String,
        phase: JournalPhase,
        pre_view_oid: Oid,
        target_view_oid: Option<Oid>,
        updated_at: i64,
    },
    /// Run the command.
    Act,
    UpdateStatus { op_id: String, status: OperationStatusV2, end_ts: i64 },
    SavePointer { op_id: String, view_oid: Oid, generation: i64 },
    /// Hand back the value of the command.
    Return,
    Fail(MiddlewareError),
}

/// What a [`RunAction`] says.
pub enum ActionModel {
    ReadHeads,
    WriteOperation(store::OperationModel),
    CasHeads { expected: Seq<store::HeadModel>, proposed: store::HeadModel },
    ReserveJournal { journal_id: Seq<char>, op_id: Seq<char>, owner: Seq<char>, updated_at: i64 },
    RecordPhase {
        journal_id: Seq<char>,
        phase: JournalPhase,
        pre_view_oid: Seq<char>,
        target_view_oid: Option<Seq<char>>,
        updated_at: i64,
    },
    Act,
    UpdateStatus { op_id: Seq<char>, status: OperationStatusV2, end_ts: i64 },
    SavePointer { op_id: Seq<char>, view_oid: Seq<char>, generation: int },
    Return,
    Fail(FailModel),
}

/// What a [`MiddlewareError`] says.
pub enum FailModel {
    Classification(Seq<char>),
    Store(store::StoreErrorModel),
    Pointer(PointerErrorModel),
    Action(Seq<char>),
    EmptyOperationId,
    GenerationsExhausted,
    UnexpectedEvent,
}

impl View for MiddlewareError {
    type V = FailModel;

    open spec fn view(&self) -> FailModel {
        match self {
            MiddlewareError::Classification(ClassificationError::UnknownCommand(n)) => {
                FailModel::Classification(n@)
            },
            MiddlewareError::Store(e) => FailModel::Store(e@),
            MiddlewareError::Pointer(e) => FailModel::Pointer(e@),
            MiddlewareError::Action(m) => FailModel::Action(m@),
            MiddlewareError::EmptyOperationId => FailModel::EmptyOperationId,
            MiddlewareError::GenerationsExhausted => FailModel::GenerationsExhausted,
            MiddlewareError::UnexpectedEvent => FailModel::UnexpectedEvent,
        }
    }
}

impl View for RunAction {
    type V = ActionModel;

    open spec fn view(&self) -> ActionModel {
        match self {
            RunAction::ReadHeads => ActionModel::ReadHeads,
            RunAction::WriteOperation(op) => ActionModel::WriteOperation(op@),
            RunAction::CasHeads { expected, proposed } => ActionModel::CasHeads {
                expected: order::views(expected@),
                proposed: proposed@,
            },
            RunAction::ReserveJournal { journal_id, op_id, owner, updated_at } => {
                ActionModel::ReserveJournal {
                    journal_id: journal_id@,
                    op_id: op_id@,
                    owner: owner@,
                    updated_at: *updated_at,
                }
            },
            RunAction::RecordPhase {
                journal_id,
                phase,
                pre_view_oid,
                target_view_oid,
                updated_at,
            } => ActionModel::RecordPhase {
                journal_id: journal_id@,
                phase: *phase,
                pre_view_oid: pre_view_oid@,
                target_view_oid: store::opt_oid(*target_view_oid),
                updated_at: *updated_at,
            },
            RunAction::Act => ActionModel::Act,
            RunAction::UpdateStatus { op_id, status, end_ts } => ActionModel::UpdateStatus {
                op_id: op_id@,
                status: *status,
                end_ts: *end_ts,
            },
            RunAction::SavePointer { op_id, view_oid, generation } => ActionModel::SavePointer {
                op_id: op_id@,
                view_oid: view_oid@,
                generation: *generation as int,
            },
            RunAction::Return => ActionModel::Return,
            RunAction::Fail(e) => ActionModel::Fail(e@),
        }
    }
}

/// What a step led to.
#[derive(Debug, PartialEq, Eq)]
pub enum RunEvent {
    /// The heads that were read, or that stand behind a publish.
    Heads(Vec<OpHead>),
    /// The step succeeded.
    Done,
    /// The step on the store failed.
    StepFailed(StoreError),
    /// The pointer could not be saved.
    PointerFailed(PointerError),
    /// The command failed.
    ActionFailed(String),
}

pub enum RunEventModel {
    Heads(Seq<store::HeadModel>),
    Done,
    StepFailed(store::StoreErrorModel),
    PointerFailed(PointerErrorModel),
    ActionFailed(Seq<char>),
}

impl View for RunEvent {
    type V = RunEventModel;

    open spec fn view(&self) -> RunEventModel {
        match self {
            RunEvent::Heads(h) => RunEventModel::Heads(order::views(h@)),
            RunEvent::Done => RunEventModel::Done,
            RunEvent::StepFailed(e) => RunEventModel::StepFailed(e@),
            RunEvent::PointerFailed(e) => RunEventModel::PointerFailed(e@),
            RunEvent::ActionFailed(m) => RunEventModel::ActionFailed(m@),
        }
    }
}

/// One command on its way through the operation journal.
#[derive(Debug, PartialEq, Eq)]
pub struct OperationRun {
    pub repo_id: String,
    pub scope_kind: String,
    pub has_pointer: bool,
    pub command_name: String,
    pub op_id: String,
    pub pre_view_oid: Oid,
    pub post_view_oid: Oid,
    pub external_snapshot_oid: Option<Oid>,
    /// The heads that the next publish expects.
    pub expected: Vec<OpHead>,
    pub phase: RunPhase,
    /// What the command failed with.
    pub failure: String,
}

/// What an [`OperationRun`] says.
#[verifier::ext_equal]
pub struct RunModel {
    pub repo_id: Seq<char>,
    pub scope_kind: Seq<char>,
    pub has_pointer: bool,
    pub command_name: Seq<char>,
    pub op_id: Seq<char>,
    pub pre_view_oid: Seq<char>,
    pub post_view_oid: Seq<char>,
    pub external_snapshot_oid: Option<Seq<char>>,
    pub expected: Seq<store::HeadModel>,
    pub phase: RunPhase,
    pub failure: Seq<char>,
}

impl View for OperationRun {
    type V = RunModel;

    open spec fn view(&self) -> RunModel {
        RunModel {
            repo_id: self.repo_id@,
            scope_kind: self.scope_kind@,
            has_pointer: self.has_pointer,
            command_name: self.command_name@,
            op_id: self.op_id@,
            pre_view_oid: self.pre_view_oid@,
            post_view_oid: self.post_view_oid@,
            external_snapshot_oid: store::opt_oid(self.external_snapshot_oid),
            expected: order::views(self.expected@),
            phase: self.phase,
            failure: self.failure@,
        }
    }
}

pub open spec fn head_ids(heads: Seq<store::HeadModel>) -> Seq<Seq<char>> {
    heads.map_values(|h: store::HeadModel| h.op_id)
}

pub open spec fn plain_meta(scope_kind: Seq<char>) -> store::MetaModel {
    store::MetaModel {
        command_name: None,
        description: None,
        args_digest: None,
        actor: None,
        worktree_id: None,
        scope_kind,
        causal_context_id: None,
    }
}

impl RunModel {
    pub open spec fn external_id(self) -> Seq<char> {
        self.op_id + "-external-snapshot"@
    }

    pub open spec fn journal_id(self) -> Seq<char> {
        "journal-"@ + self.op_id
    }

    /// The view that the command starts from: that of the external snapshot,
    /// where there is one.
    pub open spec fn effective_pre_view(self) -> Seq<char> {
        match self.external_snapshot_oid {
            Some(oid) => oid,
            None => self.pre_view_oid,
        }
    }

    /// The operation that records what happened outside before the command.
    pub open spec fn external_operation(self) -> store::OperationModel {
        store::OperationModel {
            op_id: self.external_id(),
            repo_id: self.repo_id,
            parent_op_ids: head_ids(self.expected),
            pre_view_oid: self.pre_view_oid,
            post_view_oid: self.external_snapshot_oid->0,
            kind: OperationKind::ExternalSnapshot,
            status: OperationStatusV2::Success,
            metadata: plain_meta(self.scope_kind),
            restores_op_id: None,
            reverts_op_id: None,
            predecessor_map_oid: None,
            start_ts: 0,
            end_ts: Some(0),
        }
    }

    /// The operation that records the command.
    pub open spec fn operation(self) -> store::OperationModel {
        store::OperationModel {
            op_id: self.op_id,
            repo_id: self.repo_id,
            parent_op_ids: head_ids(self.expected),
            pre_view_oid: self.effective_pre_view(),
            post_view_oid: self.post_view_oid,
            kind: OperationKind::Command,
            status: OperationStatusV2::Running,
            metadata: store::MetaModel {
                command_name: Some(self.command_name),
                ..plain_meta(self.scope_kind)
            },
            restores_op_id: None,
            reverts_op_id: None,
            predecessor_map_oid: None,
            start_ts: 0,
            end_ts: None,
        }
    }

    pub open spec fn with_phase(self, phase: RunPhase) -> RunModel {
        RunModel { phase, ..self }
    }

    pub open spec fn fail(self, e: FailModel) -> (RunModel, ActionModel) {
        (self.with_phase(RunPhase::Over), ActionModel::Fail(e))
    }

    /// Publishes `id` behind the expected heads, and waits in `phase`.
    pub open spec fn publish(self, id: Seq<char>, phase: RunPhase) -> (RunModel, ActionModel) {
        let g = store::next_generation(self.expected);
        if g > i64::MAX {
            self.fail(FailModel::GenerationsExhausted)
        } else {
            (
                self.with_phase(phase),
                ActionModel::CasHeads {
                    expected: self.expected,
                    proposed: store::HeadModel { op_id: id, generation: g },
                },
            )
        }
    }

    pub open spec fn note(
        self,
        journal_phase: JournalPhase,
        with_target: bool,
        at: i64,
        phase: RunPhase,
    ) -> (RunModel, ActionModel) {
        (
            self.with_phase(phase),
            ActionModel::RecordPhase {
                journal_id: self.journal_id(),
                phase: journal_phase,
                pre_view_oid: self.effective_pre_view(),
                target_view_oid: if with_target {
                    Some(self.post_view_oid)
                } else {
                    None
                },
                updated_at: at,
            },
        )
    }

    /// The next step after the one that the run waited for succeeded.
    pub open spec fn onward(self) -> (RunModel, ActionModel) {
        match self.phase {
            RunPhase::ExternalWritten => self.publish(
                self.external_id(),
                RunPhase::ExternalPublished,
            ),
            RunPhase::Written => (
                self.with_phase(RunPhase::Reserved),
                ActionModel::ReserveJournal {
                    journal_id: self.journal_id(),
                    op_id: self.op_id,
                    owner: "middleware"@,
                    updated_at: 0,
                },
            ),
            RunPhase::Reserved => self.note(
                JournalPhase::PreView,
                false,
                0,
                RunPhase::PreViewNoted,
            ),
            RunPhase::PreViewNoted => self.note(
                JournalPhase::Mutation,
                false,
                0,
                RunPhase::MutationNoted,
            ),
            RunPhase::MutationNoted => (self.with_phase(RunPhase::Acting), ActionModel::Act),
            RunPhase::Acting => self.note(
                JournalPhase::PostView,
                true,
                1,
                RunPhase::PostViewNoted,
            ),
            RunPhase::PostViewNoted => (
                self.with_phase(RunPhase::MarkedSuccess),
                ActionModel::UpdateStatus {
                    op_id: self.op_id,
                    status: OperationStatusV2::Success,
                    end_ts: 1,
                },
            ),
            RunPhase::MarkedSuccess => self.publish(self.op_id, RunPhase::Published),
            RunPhase::PublishNoted => if self.has_pointer {
                (
                    self.with_phase(RunPhase::PointerSaved),
                    ActionModel::SavePointer {
                        op_id: self.op_id,
                        view_oid: self.post_view_oid,
                        generation: store::next_generation(self.expected),
                    },
                )
            } else {
                (self.with_phase(RunPhase::Over), ActionModel::Return)
            },
            RunPhase::PointerSaved => (self.with_phase(RunPhase::Over), ActionModel::Return),
            RunPhase::MarkedFailed => self.fail(FailModel::Action(self.failure)),
            _ => self.fail(FailModel::UnexpectedEvent),
        }
    }

    /// The next step once heads came in.
    pub open spec fn take_heads(self, heads: Seq<store::HeadModel>) -> (RunModel, ActionModel) {
        let s = RunModel { expected: heads, ..self };
        match self.phase {
            RunPhase::Heads => if self.external_snapshot_oid is Some {
                (
                    s.with_phase(RunPhase::ExternalWritten),
                    ActionModel::WriteOperation(s.external_operation()),
                )
            } else {
                (s.with_phase(RunPhase::Written), ActionModel::WriteOperation(s.operation()))
            },
            RunPhase::ExternalPublished => (
                s.with_phase(RunPhase::Written),
                ActionModel::WriteOperation(s.operation()),
            ),
            RunPhase::Published => self.note(JournalPhase::Publish, true, 1, RunPhase::PublishNoted),
            _ => self.fail(FailModel::UnexpectedEvent),
        }
    }

    /// One step of the run. A step that failed ends it; a command that failed
    /// is marked as such and nothing is published.
    pub open spec fn step(self, e: RunEventModel) -> (RunModel, ActionModel) {
        match e {
            RunEventModel::StepFailed(e) => self.fail(FailModel::Store(e)),
            RunEventModel::PointerFailed(e) => if self.phase is PointerSaved {
                self.fail(FailModel::Pointer(e))
            } else {
                self.fail(FailModel::UnexpectedEvent)
            },
            RunEventModel::ActionFailed(m) => if self.phase is Acting {
                (
                    RunModel { failure: m, phase: RunPhase::MarkedFailed, ..self },
                    ActionModel::UpdateStatus {
                        op_id: self.op_id,
                        status: OperationStatusV2::Failed,
                        end_ts: 1,
                    },
                )
            } else {
                self.fail(FailModel::UnexpectedEvent)
            },
            RunEventModel::Heads(h) => self.take_heads(h),
            RunEventModel::Done => self.onward(),
        }
    }
}

/// How a command is run.
#[derive(Debug, PartialEq, Eq)]
pub enum RunStart {
    /// Without an operation.
    Bypass,
    /// Through the operation journal; the heads are read first.
    Record(OperationRun),
    Refuse(MiddlewareError),
}

fn ids_of(heads: &[OpHead]) -> (r: Vec<String>)
    ensures
        text::texts(r@) == head_ids(order::views(heads@)),
{
    let mut out: Vec<String> = Vec::new();
    let mut i: usize = 0;
    while i < heads.len()
        invariant
            i <= heads.len(),
            out@.len() == i,
            forall|j: int| 0 <= j < i ==> (#[trigger] out@[j])@ == heads@[j].op_id@,
        decreases heads.len() - i,
    {
        out.push(heads[i].op_id.clone());
        i += 1;
    }
    assert(text::texts(out@) =~= head_ids(order::views(heads@)));
    out
}

impl OperationMiddleware {
    /// Begins one classified command. Read-only and internal worker classes
    /// are deliberately bypassed; `InternalWorker` never produces an
    /// Operation.
    pub fn run_with_operation(
        &self,
        command_name: &str,
        op_id: &str,
        pre_view_oid: Oid,
        post_view_oid: Oid,
        external_snapshot_oid: Option<Oid>,
    ) -> (r: RunStart)
        ensures
            (match r {
                RunStart::Bypass => class_of(command_name@) matches Some(c) && !c.is_recorded(),
                RunStart::Refuse(e) => if class_of(command_name@) is None {
                    e@ == FailModel::Classification(command_name@)
                } else {
                    class_of(command_name@)->0.is_recorded() && text::is_blank(op_id@) && e@
                        == FailModel::EmptyOperationId
                },
                RunStart::Record(run) => {
                    &&& class_of(command_name@) matches Some(c) && c.is_recorded()
                    &&& !text::is_blank(op_id@)
                    &&& run@ == (RunModel {
                        repo_id: self.repo_id@,
                        scope_kind: self.scope_kind@,
                        has_pointer: self.has_pointer,
                        command_name: command_name@,
                        op_id: op_id@,
                        pre_view_oid: pre_view_oid@,
                        post_view_oid: post_view_oid@,
                        external_snapshot_oid: store::opt_oid(external_snapshot_oid),
                        expected: Seq::empty(),
                        phase: RunPhase::Heads,
                        failure: Seq::empty(),
                    })
                },
            }),
    {
        let class = match classify_command(command_name) {
            Ok(class) => class,
            Err(e) => {
                return RunStart::Refuse(MiddlewareError::Classification(e));
            },
        };
        if !class.produces_operation() {
            return RunStart::Bypass;
        }
        if blank(op_id) {
            return RunStart::Refuse(MiddlewareError::EmptyOperationId);
        }
        let none: Vec<OpHead> = Vec::new();
        assert(order::views(none@) =~= Seq::<store::HeadModel>::empty());
        RunStart::Record(
            OperationRun {
                repo_id: self.repo_id.clone(),
                scope_kind: self.scope_kind.clone(),
                has_pointer: self.has_pointer,
                command_name: command_name.to_owned(),
                op_id: op_id.to_owned(),
                pre_view_oid,
                post_view_oid,
                external_snapshot_oid,
                expected: none,
                phase: RunPhase::Heads,
                failure: String::new(),
            },
        )
    }
}

impl OperationRun {
    fn unexpected(&mut self) -> (r: RunAction)
        ensures
            (final(self)@, r@) == old(self)@.fail(FailModel::UnexpectedEvent),
    {
        self.phase = RunPhase::Over;
        RunAction::Fail(MiddlewareError::UnexpectedEvent)
    }

    fn pre_view(&self) -> (r: Oid)
        ensures
            r@ == self@.effective_pre_view(),
    {
        match &self.external_snapshot_oid {
            Some(oid) => oid.clone(),
            None => self.pre_view_oid.clone(),
        }
    }

    fn publish(&mut self, id: String, phase: RunPhase) -> (r: RunAction)
        ensures
            (final(self)@, r@) == old(self)@.publish(id@, phase),
    {
        match generation_after(self.expected.as_slice()) {
            None => {
                self.phase = RunPhase::Over;
                RunAction::Fail(MiddlewareError::GenerationsExhausted)
            },
            Some(generation) => {
                self.phase = phase;
                RunAction::CasHeads {
                    expected: copy_heads(self.expected.as_slice()),
                    proposed: OpHead { op_id: id, generation },
                }
            },
        }
    }

    fn note(
        &mut self,
        journal_phase: JournalPhase,
        with_target: bool,
        at: i64,
        phase: RunPhase,
    ) -> (r: RunAction)
        ensures
            (final(self)@, r@) == old(self)@.note(journal_phase, with_target, at, phase),
    {
        self.phase = phase;
        RunAction::RecordPhase {
            journal_id: joined("journal-", self.op_id.as_str()),
            phase: journal_phase,
            pre_view_oid: self.pre_view(),
            target_view_oid: if with_target {
                Some(self.post_view_oid.clone())
            } else {
                None
            },
            updated_at: at,
        }
    }

    fn write_operation(&mut self) -> (r: RunAction)
        ensures
            final(self)@ == old(self)@.with_phase(RunPhase::Written),
            r@ == ActionModel::WriteOperation(old(self)@.operation()),
    {
        let op = OperationV2 {
            op_id: self.op_id.clone(),
            repo_id: self.repo_id.clone(),
            parent_op_ids: ids_of(self.expected.as_slice()),
            pre_view_oid: self.pre_view(),
            post_view_oid: self.post_view_oid.clone(),
            kind: OperationKind::Command,
            status: OperationStatusV2::Running,
            metadata: OperationMetaV2 {
                command_name: Some(self.command_name.clone()),
                description: None,
                args_digest: None,
                actor: None,
                worktree_id: None,
                scope_kind: self.scope_kind.clone(),
                causal_context_id: None,
            },
            restores_op_id: None,
            reverts_op_id: None,
            predecessor_map_oid: None,
            start_ts: 0,
            end_ts: None,
        };
        self.phase = RunPhase::Written;
        RunAction::WriteOperation(op)
    }

    fn write_external(&mut self, snapshot: Oid) -> (r: RunAction)
        requires
            old(self)@.external_snapshot_oid == Some(snapshot@),
        ensures
            final(self)@ == old(self)@.with_phase(RunPhase::ExternalWritten),
            r@ == ActionModel::WriteOperation(old(self)@.external_operation()),
    {
        let op = OperationV2 {
            op_id: joined(self.op_id.as_str(), "-external-snapshot"),
            repo_id: self.repo_id.clone(),
            parent_op_ids: ids_of(self.expected.as_slice()),
            pre_view_oid: self.pre_view_oid.clone(),
            post_view_oid: snapshot,
            kind: OperationKind::ExternalSnapshot,
            status: OperationStatusV2::Success,
            metadata: OperationMetaV2 {
                command_name: None,
                description: None,
                args_digest: None,
                actor: None,
                worktree_id: None,
                scope_kind: self.scope_kind.clone(),
                causal_context_id: None,
            },
            restores_op_id: None,
            reverts_op_id: None,
            predecessor_map_oid: None,
            start_ts: 0,
            end_ts: Some(0),
        };
        self.phase = RunPhase::ExternalWritten;
        RunAction::WriteOperation(op)
    }

    fn onward(&mut self) -> (r: RunAction)
        ensures
            old(self)@.phase is PublishNoted && old(self)@.has_pointer && store::next_generation(
                old(self)@.expected,
            ) > i64::MAX || (final(self)@, r@) == old(self)@.onward(),
    {
        match self.phase {
            RunPhase::ExternalWritten => {
                let id = joined(self.op_id.as_str(), "-external-snapshot");
                self.publish(id, RunPhase::ExternalPublished)
            },
            RunPhase::Written => {
                self.phase = RunPhase::Reserved;
                RunAction::ReserveJournal {
                    journal_id: joined("journal-", self.op_id.as_str()),
                    op_id: self.op_id.clone(),
                    owner: "middleware".to_owned(),
                    updated_at: 0,
                }
            },
            RunPhase::Reserved => self.note(
                JournalPhase::PreView,
                false,
                0,
                RunPhase::PreViewNoted,
            ),
            RunPhase::PreViewNoted => self.note(
                JournalPhase::Mutation,
                false,
                0,
                RunPhase::MutationNoted,
            ),
            RunPhase::MutationNoted => {
                self.phase = RunPhase::Acting;
                RunAction::Act
            },
            RunPhase::Acting => self.note(
                JournalPhase::PostView,
                true,
                1,
                RunPhase::PostViewNoted,
            ),
            RunPhase::PostViewNoted => {
                self.phase = RunPhase::MarkedSuccess;
                RunAction::UpdateStatus {
                    op_id: self.op_id.clone(),
                    status: OperationStatusV2::Success,
                    end_ts: 1,
                }
            },
            RunPhase::MarkedSuccess => {
                let id = self.op_id.clone();
                self.publish(id, RunPhase::Published)
            },
            RunPhase::PublishNoted => {
                if self.has_pointer {
                    match generation_after(self.expected.as_slice()) {
                        Some(generation) => {
                            self.phase = RunPhase::PointerSaved;
                            RunAction::SavePointer {
                                op_id: self.op_id.clone(),
                                view_oid: self.post_view_oid.clone(),
                                generation,
                            }
                        },
                        None => {
                            self.phase = RunPhase::Over;
                            RunAction::Fail(MiddlewareError::GenerationsExhausted)
                        },
                    }
                } else {
                    self.phase = RunPhase::Over;
                    RunAction::Return
                }
            },
            RunPhase::PointerSaved => {
                self.phase = RunPhase::Over;
                RunAction::Return
            },
            RunPhase::MarkedFailed => {
                self.phase = RunPhase::Over;
                RunAction::Fail(MiddlewareError::Action(self.failure.clone()))
            },
            _ => self.unexpected(),
        }
    }

    fn take_heads(&mut self, heads: &[OpHead]) -> (r: RunAction)
        ensures
            (final(self)@, r@) == old(self)@.take_heads(order::views(heads@)),
    {
        match self.phase {
            RunPhase::Heads => {
                self.expected = copy_heads(heads);
                let snapshot = match &self.external_snapshot_oid {
                    Some(oid) => Some(oid.clone()),
                    None => None,
                };
                match snapshot {
                    Some(oid) => self.write_external(oid),
                    None => self.write_operation(),
                }
            },
            RunPhase::ExternalPublished => {
                self.expected = copy_heads(heads);
                self.write_operation()
            },
            RunPhase::Published => self.note(
                JournalPhase::Publish,
                true,
                1,
                RunPhase::PublishNoted,
            ),
            _ => self.unexpected(),
        }
    }

    /// Whether the generation that a publish took is still a number.
    pub open spec fn wf(self) -> bool {
        self.phase is Published || self.phase is PublishNoted || self.phase is PointerSaved
            ==> store::next_generation(self@.expected) <= i64::MAX
    }

    /// Takes what the last step led to, and says the next one.
    pub fn step(&mut self, event: RunEvent) -> (r: RunAction)
        requires
            old(self).wf(),
        ensures
            final(self).wf(),
            (final(self)@, r@) == old(self)@.step(event@),
    {
        match event {
            RunEvent::StepFailed(e) => {
                self.phase = RunPhase::Over;
                RunAction::Fail(MiddlewareError::Store(e))
            },
            RunEvent::PointerFailed(e) => {
                if self.phase == RunPhase::PointerSaved {
                    self.phase = RunPhase::Over;
                    RunAction::Fail(MiddlewareError::Pointer(e))
                } else {
                    self.unexpected()
                }
            },
            RunEvent::ActionFailed(m) => {
                if self.phase == RunPhase::Acting {
                    self.phase = RunPhase::MarkedFailed;
                    self.failure = m;
                    RunAction::UpdateStatus {
                        op_id: self.op_id.clone(),
                        status: OperationStatusV2::Failed,
                        end_ts: 1,
                    }
                } else {
                    self.unexpected()
                }
            },
            RunEvent::Heads(h) => self.take_heads(h.as_slice()),
            RunEvent::Done => self.onward(),
        }
    }
}

//// Laws

/// A command that fails is marked as failed, and once that is done its own
/// error comes back: nothing is published in between.
pub proof fn law_failed_command_is_never_published(s: RunModel, m: Seq<char>)
    requires
        s.phase is Acting,
    ensures
        ({
            let (s1, a1) = s.step(RunEventModel::ActionFailed(m));
            let (s2, a2) = s1.step(RunEventModel::Done);
            &&& a1 == (ActionModel::UpdateStatus {
                op_id: s.op_id,
                status: OperationStatusV2::Failed,
                end_ts: 1,
            })
            &&& a2 == ActionModel::Fail(FailModel::Action(m))
            &&& s2.phase is Over
        }),
{
}

/// A step that fails ends the run with its own error, at every point: a publish
/// that others came before tells the heads that are there.
pub proof fn law_failed_step_ends_the_run(
    s: RunModel,
    e: store::StoreErrorModel,
    p: PointerErrorModel,
)
    ensures
        ({
            let (s1, a1) = s.step(RunEventModel::StepFailed(e));
            s1.phase is Over && a1 == ActionModel::Fail(FailModel::Store(e))
        }),
        s.phase is PointerSaved ==> {
            let (s2, a2) = s.step(RunEventModel::PointerFailed(p));
            s2.phase is Over && a2 == ActionModel::Fail(FailModel::Pointer(p))
        },
{
}

/// Without an external snapshot a command whose steps all succeed is written,
/// journaled through every phase in order, marked as a success, published
/// behind the heads it was written on, and only then handed back.
pub proof fn law_successful_run(s: RunModel, heads: Seq<store::HeadModel>, behind: Seq<store::HeadModel>)
    requires
        s.phase is Heads,
        s.external_snapshot_oid is None,
        store::next_generation(heads) <= i64::MAX,
    ensures
        ({
            let (s1, a1) = s.step(RunEventModel::Heads(heads));
            let (s2, a2) = s1.step(RunEventModel::Done);
            let (s3, a3) = s2.step(RunEventModel::Done);
            let (s4, a4) = s3.step(RunEventModel::Done);
            let (s5, a5) = s4.step(RunEventModel::Done);
            let (s6, a6) = s5.step(RunEventModel::Done);
            let (s7, a7) = s6.step(RunEventModel::Done);
            let (s8, a8) = s7.step(RunEventModel::Done);
            let (s9, a9) = s8.step(RunEventModel::Heads(behind));
            let (s10, a10) = s9.step(RunEventModel::Done);
            &&& a1 matches ActionModel::WriteOperation(op) && op.op_id == s.op_id
                && op.parent_op_ids == head_ids(heads) && op.status is Running
            &&& a2 is ReserveJournal
            &&& a3 matches ActionModel::RecordPhase { phase, .. } && phase is PreView
            &&& a4 matches ActionModel::RecordPhase { phase, .. } && phase is Mutation
            &&& a5 is Act
            &&& a6 matches ActionModel::RecordPhase { phase, .. } && phase is PostView
            &&& a7 matches ActionModel::UpdateStatus { status, .. } && status is Success
            &&& a8 == (ActionModel::CasHeads {
                expected: heads,
                proposed: store::HeadModel {
                    op_id: s.op_id,
                    generation: store::next_generation(heads),
                },
            })
            &&& a9 matches ActionModel::RecordPhase { phase, .. } && phase is Publish
            &&& a10 == if s.has_pointer {
                (ActionModel::SavePointer {
                    op_id: s.op_id,
                    view_oid: s.post_view_oid,
                    generation: store::next_generation(heads),
                })
            } else {
                ActionModel::Return
            }
            &&& s10.step(RunEventModel::Done).1 == ActionModel::Return || !s.has_pointer
        }),
{
}

/// The value of a command is handed back only after its publish was noted.
pub proof fn law_return_only_after_publish(s: RunModel, e: RunEventModel)
    requires
        s.step(e).1 is Return,
    ensures
        s.phase is PublishNoted || s.phase is PointerSaved,
{
}

/// The command itself runs only once the operation is written and the
/// beginning of the mutation is in the journal.
pub proof fn law_act_only_after_journal(s: RunModel, e: RunEventModel)
    requires
        s.step(e).1 is Act,
    ensures
        s.phase is MutationNoted && e is Done,
{
}

/// With an external snapshot the command starts from the view of the
/// snapshot, which is published before it as an operation of its own.
pub proof fn law_external_snapshot_comes_first(
    s: RunModel,
    heads: Seq<store::HeadModel>,
    behind: Seq<store::HeadModel>,
)
    requires
        s.phase is Heads,
        s.external_snapshot_oid is Some,
        store::next_generation(heads) <= i64::MAX,
    ensures
        ({
            let (s1, a1) = s.step(RunEventModel::Heads(heads));
            let (s2, a2) = s1.step(RunEventModel::Done);
            let (s3, a3) = s2.step(RunEventModel::Heads(behind));
            &&& a1 matches ActionModel::WriteOperation(op) && op.kind is ExternalSnapshot
                && op.pre_view_oid == s.pre_view_oid && op.post_view_oid
                == s.external_snapshot_oid->0
            &&& a2 == (ActionModel::CasHeads {
                expected: heads,
                proposed: store::HeadModel {
                    op_id: s.external_id(),
                    generation: store::next_generation(heads),
                },
            })
            &&& a3 matches ActionModel::WriteOperation(op) && op.kind is Command
                && op.parent_op_ids == head_ids(behind) && op.pre_view_oid
                == s.external_snapshot_oid->0
        }),
{
}

} // verus!
