//! One command or tool call on its way through the operation boundary.
//!
//! The durable operation is there before the command runs. The view that the
//! operation ends with is captured after the command, so that the operation
//! points at what was really left behind. Everything outside is the caller's:
//! it performs what a step asks for, and hands back what came of it.

use vstd::prelude::*;

use super::middleware;
use super::middleware::{
    ActionModel, FailModel, MiddlewareError, MutationClass, OperationMiddleware, OperationRun,
    RunAction, RunEvent, RunEventModel, RunModel, RunPhase, RunStart,
};
use super::runtime;
use super::runtime::{
    dispatch_metadata, is_v2_schema, middleware_command_name, plan_dispatch, DispatchPlan,
};
use super::store;
use super::store::{
    HeadModel, MetaModel, OpHead, OperationMetaV2, OperationStatusV2, StoreError, StoreErrorModel,
};
use crate::oid::Oid;
use crate::order;
use crate::text;

verus! {

/// How far a dispatch has come.
#[derive(Debug, Clone, Copy, PartialEq, Eq, Structural)]
pub enum DispatchPhase {
    /// The columns of the `operation` table are read.
    Schema,
    /// The command runs without an operation.
    Direct,
    /// The view before the command is captured.
    PreView,
    /// The command runs inside its operation.
    Recording,
    /// The view after the command is captured.
    PostView,
    Completing,
    Describing,
    Over,
}

/// What a dispatch asks for.
#[derive(Debug, PartialEq, Eq)]
pub enum DispatchAction {
    ReadColumns,
    CaptureView,
    /// A step of the operation itself.
    Record(RunAction),
    /// Run the command.
    Act,
    /// Set the final view and status of the operation.
    Complete { op_id: String, post_view_oid: Oid, status: OperationStatusV2 },
    Describe { op_id: String, metadata: OperationMetaV2 },
    /// Hand back the value of the command.
    Return,
    /// Hand back the error of the command.
    ReturnError,
    Fail(MiddlewareError),
}

/// What a [`DispatchAction`] says.
pub enum DispatchActionModel {
    ReadColumns,
    CaptureView,
    Record(ActionModel),
    Act,
    Complete { op_id: Seq<char>, post_view_oid: Seq<char>, status: OperationStatusV2 },
    Describe { op_id: Seq<char>, metadata: MetaModel },
    Return,
    ReturnError,
    Fail(FailModel),
}

impl View for DispatchAction {
    type V = DispatchActionModel;

    open spec fn view(&self) -> DispatchActionModel {
        match self {
            DispatchAction::ReadColumns => DispatchActionModel::ReadColumns,
            DispatchAction::CaptureView => DispatchActionModel::CaptureView,
            DispatchAction::Record(a) => DispatchActionModel::Record(a@),
            DispatchAction::Act => DispatchActionModel::Act,
            DispatchAction::Complete { op_id, post_view_oid, status } => {
                DispatchActionModel::Complete {
                    op_id: op_id@,
                    post_view_oid: post_view_oid@,
                    status: *status,
                }
            },
            DispatchAction::Describe { op_id, metadata } => DispatchActionModel::Describe {
                op_id: op_id@,
                metadata: metadata@,
            },
            DispatchAction::Return => DispatchActionModel::Return,
            DispatchAction::ReturnError => DispatchActionModel::ReturnError,
            DispatchAction::Fail(e) => DispatchActionModel::Fail(e@),
        }
    }
}

/// What came of what a dispatch asked for.
#[derive(Debug, PartialEq, Eq)]
pub enum DispatchEvent {
    Columns(Vec<String>),
    View(Oid),
    Heads(Vec<OpHead>),
    Done,
    /// The columns could not be read, or a view not be captured.
    StepFailed(String),
    /// A step on the store failed.
    StoreFailed(StoreError),
    ActionFailed,
}

/// What a [`DispatchEvent`] says.
pub enum DispatchEventModel {
    Columns(Seq<Seq<char>>),
    View(Seq<char>),
    Heads(Seq<HeadModel>),
    Done,
    StepFailed(Seq<char>),
    StoreFailed(StoreErrorModel),
    ActionFailed,
}

impl View for DispatchEvent {
    type V = DispatchEventModel;

    open spec fn view(&self) -> DispatchEventModel {
        match self {
            DispatchEvent::Columns(c) => DispatchEventModel::Columns(text::texts(c@)),
            DispatchEvent::View(v) => DispatchEventModel::View(v@),
            DispatchEvent::Heads(h) => DispatchEventModel::Heads(order::views(h@)),
            DispatchEvent::Done => DispatchEventModel::Done,
            DispatchEvent::StepFailed(m) => DispatchEventModel::StepFailed(m@),
            DispatchEvent::StoreFailed(e) => DispatchEventModel::StoreFailed(e@),
            DispatchEvent::ActionFailed => DispatchEventModel::ActionFailed,
        }
    }
}

/// A command on its way through the operation boundary.
#[derive(Debug, PartialEq, Eq)]
pub struct DispatchRun {
    pub repo_id: String,
    pub scope_key: String,
    pub command_name: String,
    pub description: String,
    pub actor: String,
    pub args_digest: Option<String>,
    pub class: MutationClass,
    pub op_id: String,
    pub phase: DispatchPhase,
    pub run: Option<OperationRun>,
}

/// What a [`DispatchRun`] stands for.
#[verifier::ext_equal]
pub struct DispatchModel {
    pub repo_id: Seq<char>,
    pub scope_key: Seq<char>,
    pub command_name: Seq<char>,
    pub description: Seq<char>,
    pub actor: Seq<char>,
    pub args_digest: Option<Seq<char>>,
    pub class: MutationClass,
    pub op_id: Seq<char>,
    pub phase: DispatchPhase,
    pub run: Option<RunModel>,
}

impl View for DispatchRun {
    type V = DispatchModel;

    open spec fn view(&self) -> DispatchModel {
        DispatchModel {
            repo_id: self.repo_id@,
            scope_key: self.scope_key@,
            command_name: self.command_name@,
            description: self.description@,
            actor: self.actor@,
            args_digest: text::opt_text(self.args_digest),
            class: self.class,
            op_id: self.op_id@,
            phase: self.phase,
            run: match self.run {
                Some(r) => Some(r@),
                None => None,
            },
        }
    }
}

impl DispatchModel {
    pub open spec fn with_phase(self, phase: DispatchPhase) -> DispatchModel {
        DispatchModel { phase, ..self }
    }

    pub open spec fn fail(self, e: FailModel) -> (DispatchModel, DispatchActionModel) {
        (self.with_phase(DispatchPhase::Over), DispatchActionModel::Fail(e))
    }

    pub open spec fn unexpected(self) -> (DispatchModel, DispatchActionModel) {
        self.fail(FailModel::UnexpectedEvent)
    }

    /// The operation of the command, from the view before it. Until the
    /// command is done, the operation ends where it began.
    pub open spec fn recorded(self, view: Seq<char>) -> RunModel {
        RunModel {
            repo_id: self.repo_id,
            scope_kind: middleware::scope_kind_of(self.scope_key),
            has_pointer: false,
            command_name: runtime::class_command(self.class),
            op_id: self.op_id,
            pre_view_oid: view,
            post_view_oid: view,
            external_snapshot_oid: None,
            expected: Seq::empty(),
            phase: RunPhase::Heads,
            failure: Seq::empty(),
        }
    }

    /// The operation takes a step. It is left behind once it is published or
    /// has failed; a command that failed hands back its own error.
    pub open spec fn relay(self, e: RunEventModel) -> (DispatchModel, DispatchActionModel) {
        match self.run {
            None => self.unexpected(),
            Some(run) => {
                let (next, action) = run.step(e);
                let s = DispatchModel { run: Some(next), ..self };
                match action {
                    ActionModel::Act => (s, DispatchActionModel::Act),
                    ActionModel::Return => (
                        s.with_phase(DispatchPhase::PostView),
                        DispatchActionModel::CaptureView,
                    ),
                    ActionModel::Fail(f) => (
                        s.with_phase(DispatchPhase::Over),
                        if f is Action {
                            DispatchActionModel::ReturnError
                        } else {
                            DispatchActionModel::Fail(f)
                        },
                    ),
                    _ => (s, DispatchActionModel::Record(action)),
                }
            },
        }
    }

    /// What is noted of the command once it has run.
    pub open spec fn metadata(self) -> MetaModel {
        runtime::described(
            self.scope_key,
            self.command_name,
            self.description,
            self.actor,
            self.args_digest,
        )
    }

    /// One step of the dispatch.
    pub open spec fn step(self, e: DispatchEventModel) -> (DispatchModel, DispatchActionModel) {
        match (self.phase, e) {
            (DispatchPhase::Recording, DispatchEventModel::StoreFailed(e)) => self.relay(
                RunEventModel::StepFailed(e),
            ),
            (DispatchPhase::Recording, DispatchEventModel::ActionFailed) => self.relay(
                RunEventModel::ActionFailed("dispatch action failed"@),
            ),
            (DispatchPhase::Recording, DispatchEventModel::Heads(h)) => self.relay(
                RunEventModel::Heads(h),
            ),
            (DispatchPhase::Recording, DispatchEventModel::Done) => self.relay(RunEventModel::Done),
            (DispatchPhase::Schema, DispatchEventModel::Columns(c)) => if self.class.is_recorded()
                && c.contains("format_version"@) {
                (self.with_phase(DispatchPhase::PreView), DispatchActionModel::CaptureView)
            } else {
                (self.with_phase(DispatchPhase::Direct), DispatchActionModel::Act)
            },
            (DispatchPhase::Direct, DispatchEventModel::Done) => (
                self.with_phase(DispatchPhase::Over),
                DispatchActionModel::Return,
            ),
            (DispatchPhase::Direct, DispatchEventModel::ActionFailed) => (
                self.with_phase(DispatchPhase::Over),
                DispatchActionModel::ReturnError,
            ),
            (DispatchPhase::PreView, DispatchEventModel::View(v)) => if text::is_blank(self.op_id) {
                self.fail(FailModel::EmptyOperationId)
            } else {
                (
                    DispatchModel {
                        phase: DispatchPhase::Recording,
                        run: Some(self.recorded(v)),
                        ..self
                    },
                    DispatchActionModel::Record(ActionModel::ReadHeads),
                )
            },
            (DispatchPhase::PostView, DispatchEventModel::View(v)) => (
                self.with_phase(DispatchPhase::Completing),
                DispatchActionModel::Complete {
                    op_id: self.op_id,
                    post_view_oid: v,
                    status: OperationStatusV2::Success,
                },
            ),
            (DispatchPhase::Completing, DispatchEventModel::Done) => (
                self.with_phase(DispatchPhase::Describing),
                DispatchActionModel::Describe { op_id: self.op_id, metadata: self.metadata() },
            ),
            (DispatchPhase::Describing, DispatchEventModel::Done) => (
                self.with_phase(DispatchPhase::Over),
                DispatchActionModel::Return,
            ),
            (DispatchPhase::Schema, DispatchEventModel::StepFailed(m)) => self.fail(
                FailModel::Action(m),
            ),
            (DispatchPhase::PreView, DispatchEventModel::StepFailed(m)) => self.fail(
                FailModel::Action(m),
            ),
            (DispatchPhase::PostView, DispatchEventModel::StepFailed(m)) => self.fail(
                FailModel::Action(m),
            ),
            (DispatchPhase::Completing, DispatchEventModel::StoreFailed(e)) => self.fail(
                FailModel::Store(e),
            ),
            (DispatchPhase::Describing, DispatchEventModel::StoreFailed(e)) => self.fail(
                FailModel::Store(e),
            ),
            _ => self.unexpected(),
        }
    }
}

impl DispatchRun {
    /// A command is in its operation while it is recorded, and only commands
    /// of a recorded class are.
    pub open spec fn wf(self) -> bool {
        &&& self.phase is PreView ==> self.class.is_recorded()
        &&& self.phase is Recording ==> self.run is Some && self.run->0.wf()
    }

    /// Starts a dispatch with the columns of the `operation` table.
    pub fn new(
        repo_id: &str,
        scope_key: &str,
        command_name: &str,
        description: &str,
        actor: &str,
        args_digest: Option<String>,
        class: MutationClass,
        op_id: &str,
    ) -> (r: (DispatchRun, DispatchAction))
        ensures
            r.0.wf(),
            r.0@ == (DispatchModel {
                repo_id: repo_id@,
                scope_key: scope_key@,
                command_name: command_name@,
                description: description@,
                actor: actor@,
                args_digest: text::opt_text(args_digest),
                class,
                op_id: op_id@,
                phase: DispatchPhase::Schema,
                run: None,
            }),
            r.1@ == DispatchActionModel::ReadColumns,
    {
        (
            DispatchRun {
                repo_id: repo_id.to_owned(),
                scope_key: scope_key.to_owned(),
                command_name: command_name.to_owned(),
                description: description.to_owned(),
                actor: actor.to_owned(),
                args_digest,
                class,
                op_id: op_id.to_owned(),
                phase: DispatchPhase::Schema,
                run: None,
            },
            DispatchAction::ReadColumns,
        )
    }

    fn fail(&mut self, e: MiddlewareError) -> (r: DispatchAction)
        ensures
            final(self).wf(),
            (final(self)@, r@) == old(self)@.fail(e@),
    {
        self.phase = DispatchPhase::Over;
        DispatchAction::Fail(e)
    }

    fn unexpected(&mut self) -> (r: DispatchAction)
        ensures
            final(self).wf(),
            (final(self)@, r@) == old(self)@.unexpected(),
    {
        self.fail(MiddlewareError::UnexpectedEvent)
    }

    fn relay(&mut self, event: RunEvent) -> (r: DispatchAction)
        requires
            old(self).phase is Recording,
            old(self).wf(),
        ensures
            final(self).wf(),
            (final(self)@, r@) == old(self)@.relay(event@),
    {
        let mut run = match self.run.take() {
            Some(run) => run,
            None => {
                return self.unexpected();
            },
        };
        let action = run.step(event);
        self.run = Some(run);
        match action {
            RunAction::Act => DispatchAction::Act,
            RunAction::Return => {
                self.phase = DispatchPhase::PostView;
                DispatchAction::CaptureView
            },
            RunAction::Fail(MiddlewareError::Action(_)) => {
                self.phase = DispatchPhase::Over;
                DispatchAction::ReturnError
            },
            RunAction::Fail(e) => {
                self.phase = DispatchPhase::Over;
                DispatchAction::Fail(e)
            },
            other => DispatchAction::Record(other),
        }
    }

    fn record(&mut self, view: Oid) -> (r: DispatchAction)
        requires
            old(self).phase is PreView,
            old(self).wf(),
        ensures
            final(self).wf(),
            (final(self)@, r@) == old(self)@.step(DispatchEventModel::View(view@)),
    {
        proof {
            runtime::law_class_command_is_of_class(self.class);
        }
        let middleware = OperationMiddleware::new(
            self.repo_id.as_str(),
            self.scope_key.as_str(),
            false,
        );
        match middleware.run_with_operation(
            middleware_command_name(self.class),
            self.op_id.as_str(),
            view.clone(),
            view,
            None,
        ) {
            RunStart::Record(run) => {
                self.phase = DispatchPhase::Recording;
                self.run = Some(run);
                DispatchAction::Record(RunAction::ReadHeads)
            },
            RunStart::Refuse(e) => self.fail(e),
            RunStart::Bypass => self.unexpected(),
        }
    }

    fn recording(&mut self, event: DispatchEvent) -> (r: DispatchAction)
        requires
            old(self).phase is Recording,
            old(self).wf(),
        ensures
            final(self).wf(),
            (final(self)@, r@) == old(self)@.step(event@),
    {
        match event {
            DispatchEvent::Heads(h) => self.relay(RunEvent::Heads(h)),
            DispatchEvent::Done => self.relay(RunEvent::Done),
            DispatchEvent::StoreFailed(e) => self.relay(RunEvent::StepFailed(e)),
            DispatchEvent::ActionFailed => self.relay(
                RunEvent::ActionFailed("dispatch action failed".to_owned()),
            ),
            _ => self.unexpected(),
        }
    }

    /// Takes what the last step led to, and says the next one.
    pub fn step(&mut self, event: DispatchEvent) -> (r: DispatchAction)
        requires
            old(self).wf(),
        ensures
            final(self).wf(),
            (final(self)@, r@) == old(self)@.step(event@),
    {
        match self.phase {
            DispatchPhase::Recording => self.recording(event),
            DispatchPhase::Schema => match event {
                DispatchEvent::Columns(c) => {
                    match plan_dispatch(is_v2_schema(c.as_slice()), self.class) {
                        DispatchPlan::Recorded => {
                            self.phase = DispatchPhase::PreView;
                            DispatchAction::CaptureView
                        },
                        DispatchPlan::Direct => {
                            self.phase = DispatchPhase::Direct;
                            DispatchAction::Act
                        },
                    }
                },
                DispatchEvent::StepFailed(m) => self.fail(MiddlewareError::Action(m)),
                _ => self.unexpected(),
            },
            DispatchPhase::Direct => match event {
                DispatchEvent::Done => {
                    self.phase = DispatchPhase::Over;
                    DispatchAction::Return
                },
                DispatchEvent::ActionFailed => {
                    self.phase = DispatchPhase::Over;
                    DispatchAction::ReturnError
                },
                _ => self.unexpected(),
            },
            DispatchPhase::PreView => match event {
                DispatchEvent::View(v) => self.record(v),
                DispatchEvent::StepFailed(m) => self.fail(MiddlewareError::Action(m)),
                _ => self.unexpected(),
            },
            DispatchPhase::PostView => match event {
                DispatchEvent::View(v) => {
                    self.phase = DispatchPhase::Completing;
                    DispatchAction::Complete {
                        op_id: self.op_id.clone(),
                        post_view_oid: v,
                        status: OperationStatusV2::Success,
                    }
                },
                DispatchEvent::StepFailed(m) => self.fail(MiddlewareError::Action(m)),
                _ => self.unexpected(),
            },
            DispatchPhase::Completing => match event {
                DispatchEvent::Done => {
                    self.phase = DispatchPhase::Describing;
                    DispatchAction::Describe {
                        op_id: self.op_id.clone(),
                        metadata: dispatch_metadata(
                            self.scope_key.as_str(),
                            self.command_name.as_str(),
                            self.description.as_str(),
                            self.actor.as_str(),
                            store::copy_text(&self.args_digest),
                        ),
                    }
                },
                DispatchEvent::StoreFailed(e) => self.fail(MiddlewareError::Store(e)),
                _ => self.unexpected(),
            },
            DispatchPhase::Describing => match event {
                DispatchEvent::Done => {
                    self.phase = DispatchPhase::Over;
                    DispatchAction::Return
                },
                DispatchEvent::StoreFailed(e) => self.fail(MiddlewareError::Store(e)),
                _ => self.unexpected(),
            },
            DispatchPhase::Over => self.unexpected(),
        }
    }
}

//// Laws

/// A command runs either without an operation, where its class is not
/// recorded or the store is not of version 2, or inside an operation that is
/// written and journaled.
pub proof fn law_recorded_before_it_runs(s: DispatchModel, e: DispatchEventModel)
    requires
        s.step(e).1 is Act,
    ensures
        (match s.phase {
            DispatchPhase::Schema => e is Columns && !(s.class.is_recorded()
                && e->Columns_0.contains("format_version"@)),
            DispatchPhase::Recording => s.run is Some && s.run->0.phase is MutationNoted,
            _ => false,
        }),
{
}

/// Without an operation nothing is recorded, before the command or after it.
pub proof fn law_direct_dispatch_leaves_no_trace(s: DispatchModel, columns: Seq<Seq<char>>)
    requires
        s.phase is Schema,
        !s.class.is_recorded() || !columns.contains("format_version"@),
    ensures
        ({
            let (s1, a1) = s.step(DispatchEventModel::Columns(columns));
            &&& a1 is Act
            &&& s1.step(DispatchEventModel::Done).1 is Return
            &&& s1.step(DispatchEventModel::ActionFailed).1 is ReturnError
        }),
{
}

/// A command that fails inside its operation leaves a failed operation, and
/// hands back its own error.
pub proof fn law_failed_dispatch_keeps_its_error(s: DispatchModel)
    requires
        s.phase is Recording,
        s.run matches Some(r) && r.phase is Acting,
    ensures
        ({
            let (s1, a1) = s.step(DispatchEventModel::ActionFailed);
            let (s2, a2) = s1.step(DispatchEventModel::Done);
            &&& a1 == DispatchActionModel::Record(
                ActionModel::UpdateStatus {
                    op_id: s.run->0.op_id,
                    status: OperationStatusV2::Failed,
                    end_ts: 1,
                },
            )
            &&& a2 is ReturnError
            &&& s2.phase is Over
        }),
{
    let (s1, a1) = s.step(DispatchEventModel::ActionFailed);
    assert(s1.run->0.phase is MarkedFailed);
}

/// Once a command is published, the view that it left behind becomes the final
/// view of its operation, the operation is described, and the value of the
/// command is handed back.
pub proof fn law_operation_ends_with_the_view_after(s: DispatchModel, view: Seq<char>)
    requires
        s.phase is Recording,
        s.run matches Some(r) && r.phase is PublishNoted && !r.has_pointer,
    ensures
        ({
            let (s1, a1) = s.step(DispatchEventModel::Done);
            let (s2, a2) = s1.step(DispatchEventModel::View(view));
            let (s3, a3) = s2.step(DispatchEventModel::Done);
            let (s4, a4) = s3.step(DispatchEventModel::Done);
            &&& a1 is CaptureView
            &&& a2 == (DispatchActionModel::Complete {
                op_id: s.op_id,
                post_view_oid: view,
                status: OperationStatusV2::Success,
            })
            &&& a3 == (DispatchActionModel::Describe { op_id: s.op_id, metadata: s.metadata() })
            &&& a4 is Return
        }),
{
}

/// The value of a recorded command is handed back only once its operation is
/// complete and described.
pub proof fn law_value_comes_last(s: DispatchModel, e: DispatchEventModel)
    requires
        s.step(e).1 is Return,
    ensures
        (s.phase is Direct || s.phase is Describing) && e is Done,
{
}

} // verus!
